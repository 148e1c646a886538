//! Structural model of component payloads.
//!
//! A component value is a fixed-arity record of field values; a partial update
//! assigns new values to a subset of those fields. The merge rules here are
//! the single source of truth for how updates combine with values and with
//! each other (last writer per field wins).

use vstd::prelude::*;

verus! {

/// One field of a component: either text or an unsigned number.
#[derive(Debug, PartialEq, Eq)]
pub enum FieldValue {
    Text(String),
    Number(u64),
}

impl Clone for FieldValue {
    fn clone(&self) -> (r: Self)
        ensures
            r == *self,
    {
        match self {
            FieldValue::Text(s) => FieldValue::Text(s.clone()),
            FieldValue::Number(n) => FieldValue::Number(*n),
        }
    }
}

/// A complete component value: one value per field, in field order.
#[derive(Debug, PartialEq, Eq)]
pub struct ComponentValue {
    pub fields: Vec<FieldValue>,
}

/// A partial update: `Some` fields overwrite, `None` fields are untouched.
#[derive(Debug, PartialEq, Eq)]
pub struct ComponentUpdate {
    pub fields: Vec<Option<FieldValue>>,
}

/// A typed command request payload: the command it addresses within its
/// component type, and the request's own fields.
#[derive(Debug, PartialEq, Eq)]
pub struct CommandRequestData {
    pub command_index: u32,
    pub payload: ComponentValue,
}

/// A typed command response payload.
#[derive(Debug, PartialEq, Eq)]
pub struct CommandResponseData {
    pub command_index: u32,
    pub payload: ComponentValue,
}

/// The value obtained by applying the partial update `u` to the value `v`:
/// a present field overwrites, an absent field is untouched.
pub open spec fn merged_fields(v: Seq<FieldValue>, u: Seq<Option<FieldValue>>) -> Seq<FieldValue>
    recommends
        u.len() == v.len(),
{
    Seq::new(v.len(), |i: int| match u[i] {
        Some(f) => f,
        None => v[i],
    })
}

/// The accumulation of the partial update `b` onto the partial update `a`:
/// per field, the last writer wins.
pub open spec fn merged_updates(
    a: Seq<Option<FieldValue>>,
    b: Seq<Option<FieldValue>>,
) -> Seq<Option<FieldValue>>
    recommends
        a.len() == b.len(),
{
    Seq::new(a.len(), |i: int| if b[i] is Some {
        b[i]
    } else {
        a[i]
    })
}

/// The partial update that carries every field of `v`.
pub open spec fn full_update_of(v: Seq<FieldValue>) -> Seq<Option<FieldValue>> {
    Seq::new(v.len(), |i: int| Some(v[i]))
}

/// Applying two updates one after the other is the same as applying their
/// accumulation: the law behind accumulating pending partial updates.
pub proof fn lemma_merge_compose(
    v: Seq<FieldValue>,
    a: Seq<Option<FieldValue>>,
    b: Seq<Option<FieldValue>>,
)
    requires
        a.len() == v.len(),
        b.len() == v.len(),
    ensures
        merged_fields(merged_fields(v, a), b) == merged_fields(v, merged_updates(a, b)),
{
    assert(merged_fields(merged_fields(v, a), b) =~= merged_fields(v, merged_updates(a, b)));
}

/// The single update accumulated from applying each update of `ups` in
/// order, last writer per field wins.
pub open spec fn accumulated_update(ups: Seq<Seq<Option<FieldValue>>>) -> Seq<Option<FieldValue>>
    recommends
        ups.len() > 0,
    decreases ups.len(),
{
    if ups.len() <= 1 {
        ups[0]
    } else {
        merged_updates(accumulated_update(ups.drop_last()), ups.last())
    }
}

/// The value reached from `v` by applying each update of `ups` in order.
pub open spec fn value_after_updates(v: Seq<FieldValue>, ups: Seq<Seq<Option<FieldValue>>>) -> Seq<
    FieldValue,
>
    decreases ups.len(),
{
    if ups.len() == 0 {
        v
    } else {
        merged_fields(value_after_updates(v, ups.drop_last()), ups.last())
    }
}

/// For any sequence of partial updates applied in order with no intervening
/// flush, the accumulated pending update equals the field-wise merge of the
/// updates in call order, and applying that single accumulated update to the
/// prior value yields the same value as applying each update in call order.
pub proof fn lemma_send_update_accumulation(
    v: Seq<FieldValue>,
    ups: Seq<Seq<Option<FieldValue>>>,
)
    requires
        ups.len() > 0,
        forall|i: int| 0 <= i < ups.len() ==> (#[trigger] ups[i]).len() == v.len(),
    ensures
        accumulated_update(ups).len() == v.len(),
        value_after_updates(v, ups) == merged_fields(v, accumulated_update(ups)),
    decreases ups.len(),
{
    if ups.len() == 1 {
        assert(value_after_updates(v, ups.drop_last()) == v);
    } else {
        lemma_send_update_accumulation(v, ups.drop_last());
        lemma_merge_compose(v, accumulated_update(ups.drop_last()), ups.last());
    }
}

impl ComponentValue {
    /// Number of fields of this value.
    pub fn arity(&self) -> (n: usize)
        ensures
            n == self.fields@.len(),
    {
        self.fields.len()
    }

    /// Merge a partial update into this value: a present field overwrites,
    /// an absent field is untouched.
    pub fn merge(&mut self, update: &ComponentUpdate)
        requires
            update.fields@.len() == old(self).fields@.len(),
        ensures
            final(self).fields@ == merged_fields(old(self).fields@, update.fields@),
    {
        let ghost orig = self.fields@;
        let n = self.fields.len();
        let mut i: usize = 0;
        while i < n
            invariant
                n == self.fields@.len(),
                orig.len() == n,
                update.fields@.len() == n,
                i <= n,
                forall|j: int|
                    0 <= j < i ==> self.fields@[j] == merged_fields(orig, update.fields@)[j],
                forall|j: int| i <= j < n ==> self.fields@[j] == orig[j],
            decreases n - i,
        {
            match &update.fields[i] {
                Some(f) => {
                    self.fields[i] = f.clone();
                },
                None => {},
            }
            i = i + 1;
        }
        assert(self.fields@ =~= merged_fields(orig, update.fields@));
    }
}

impl ComponentUpdate {
    /// An update that touches no field of an `arity`-field component.
    pub fn empty(arity: usize) -> (r: Self)
        ensures
            r.fields@.len() == arity,
            forall|i: int| 0 <= i < arity ==> r.fields@[i] is None,
    {
        let mut fields: Vec<Option<FieldValue>> = Vec::new();
        let mut i: usize = 0;
        while i < arity
            invariant
                i <= arity,
                fields@.len() == i,
                forall|j: int| 0 <= j < i ==> fields@[j] is None,
            decreases arity - i,
        {
            fields.push(None);
            i = i + 1;
        }
        ComponentUpdate { fields }
    }

    /// The update that carries every field of `value`.
    pub fn full_of(value: &ComponentValue) -> (r: Self)
        ensures
            r.fields@ == full_update_of(value.fields@),
    {
        let n = value.fields.len();
        let mut fields: Vec<Option<FieldValue>> = Vec::new();
        let mut i: usize = 0;
        while i < n
            invariant
                n == value.fields@.len(),
                i <= n,
                fields@.len() == i,
                forall|j: int| 0 <= j < i ==> fields@[j] == Some(value.fields@[j]),
            decreases n - i,
        {
            fields.push(Some(value.fields[i].clone()));
            i = i + 1;
        }
        assert(fields@ =~= full_update_of(value.fields@));
        ComponentUpdate { fields }
    }

    /// Accumulate the later update `newer` onto this one: per field, the last
    /// writer wins.
    pub fn merge(&mut self, newer: ComponentUpdate)
        requires
            newer.fields@.len() == old(self).fields@.len(),
        ensures
            final(self).fields@ == merged_updates(old(self).fields@, newer.fields@),
    {
        let ghost orig = self.fields@;
        let ghost newer0 = newer.fields@;
        let mut newer = newer;
        while newer.fields.len() > 0
            invariant
                newer.fields@.len() <= newer0.len(),
                newer0.len() == orig.len(),
                self.fields@.len() == orig.len(),
                newer.fields@ == newer0.subrange(0, newer.fields@.len() as int),
                forall|j: int| 0 <= j < newer.fields@.len() ==> self.fields@[j] == orig[j],
                forall|j: int|
                    newer.fields@.len() <= j < newer0.len() ==> self.fields@[j] == merged_updates(
                        orig,
                        newer0,
                    )[j],
            decreases newer.fields@.len(),
        {
            let f = newer.fields.pop().unwrap();
            let i = newer.fields.len();
            if f.is_some() {
                self.fields[i] = f;
            }
            proof {
                assert(newer.fields@ =~= newer0.subrange(0, newer.fields@.len() as int));
            }
        }
        assert(self.fields@ =~= merged_updates(orig, newer0));
    }
}

} // verus!
