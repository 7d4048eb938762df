//! The generated artifact: a byte-array-backed value whose fields are
//! read and written only through the bit-range codec, following a checked
//! layout. Reading a field immediately after writing it returns the
//! written value, and writing one field never perturbs another — both are
//! part of the accessors' contracts.

use vstd::prelude::*;
use vstd::arithmetic::power2::pow2;
use crate::bits::{bit_at, bits_value};
use crate::codec::{get_bits, set_bits};
use crate::layout::{lemma_plan_in_total, lemma_plan_ordered, BitfieldPlan};
use crate::specifier::{
    from_hold, hold_fits, spec_from_hold, spec_to_hold, to_hold, HoldValue, Specifier,
};

verus! {

/// A bit-packed value: a checked layout and its backing bytes.
pub struct Bitfield {
    plan: BitfieldPlan,
    data: Vec<u8>,
}

impl Bitfield {
    /// The layout this value follows.
    pub closed spec fn spec_plan(&self) -> BitfieldPlan {
        self.plan
    }

    /// The backing bytes.
    pub closed spec fn bytes(&self) -> Seq<u8> {
        self.data@
    }

    /// The layout is well formed and the storage is exactly its byte
    /// count.
    pub open spec fn wf(&self) -> bool {
        &&& self.spec_plan().wf()
        &&& self.bytes().len() == self.spec_plan().size.byte_count
    }

    /// How many fields the layout has.
    pub open spec fn spec_field_count(&self) -> int {
        self.spec_plan().fields@.len() as int
    }

    /// The stored raw value of field `i`: the bits of its range.
    pub open spec fn field_value(&self, i: int) -> int {
        bits_value(
            self.bytes(),
            self.spec_plan().fields@[i].start as int,
            self.spec_plan().fields@[i].end as int,
        )
    }

    /// Creates the value with all storage zeroed, so every field reads
    /// as zero.
    pub fn new(plan: BitfieldPlan) -> (r: Bitfield)
        requires
            plan.wf(),
        ensures
            r.wf(),
            r.spec_plan() == plan,
            forall|i: int| 0 <= i < r.spec_field_count() ==> r.field_value(i) == 0,
    {
        let n = plan.size.byte_count;
        let mut data: Vec<u8> = Vec::new();
        let mut k: usize = 0;
        while k < n
            invariant
                0 <= k <= n,
                data@.len() == k,
                forall|j: int| 0 <= j < k ==> data@[j] == 0,
            decreases n - k,
        {
            data.push(0);
            k = k + 1;
        }
        let r = Bitfield { plan, data };
        proof {
            assert forall|i: int| 0 <= i < r.spec_field_count() implies r.field_value(i) == 0 by {
                lemma_plan_in_total(r.spec_plan(), i);
                crate::bits::lemma_bits_value_zero(
                    r.bytes(),
                    r.spec_plan().fields@[i].start as int,
                    r.spec_plan().fields@[i].end as int,
                );
            }
        }
        r
    }

    /// The layout, for callers that need the field table.
    pub fn plan(&self) -> (r: &BitfieldPlan)
        ensures
            *r == self.spec_plan(),
    {
        &self.plan
    }

    /// The backing bytes, for callers that need the raw storage.
    pub fn raw_bytes(&self) -> (r: &Vec<u8>)
        ensures
            r@ == self.bytes(),
    {
        &self.data
    }

    /// How many fields there are.
    pub fn field_count(&self) -> (r: usize)
        ensures
            r as int == self.spec_field_count(),
    {
        self.plan.fields.len()
    }

    /// Reads the raw value of field `i`.
    pub fn get_field(&self, i: usize) -> (r: u64)
        requires
            self.wf(),
            i < self.spec_field_count(),
        ensures
            r as int == self.field_value(i as int),
            (r as int) < pow2(self.spec_plan().fields@[i as int].spec.bits as nat),
    {
        let start = self.plan.fields[i].start;
        let end = self.plan.fields[i].end;
        proof {
            lemma_plan_in_total(self.spec_plan(), i as int);
            crate::bits::lemma_bits_value_bound(self.bytes(), start as int, end as int);
        }
        get_bits(&self.data, start, end)
    }

    /// Writes `v` as the raw value of field `i`. Reading field `i` back
    /// now gives `v`, and every other field's stored value is unchanged.
    pub fn set_field(&mut self, i: usize, v: u64)
        requires
            old(self).wf(),
            i < old(self).spec_field_count(),
            (v as int) < pow2(old(self).spec_plan().fields@[i as int].spec.bits as nat),
        ensures
            final(self).wf(),
            final(self).spec_plan() == old(self).spec_plan(),
            final(self).field_value(i as int) == v as int,
            forall|j: int|
                0 <= j < old(self).spec_field_count() && j != i as int ==> final(self).field_value(
                    j,
                ) == old(self).field_value(j),
    {
        let start = self.plan.fields[i].start;
        let end = self.plan.fields[i].end;
        proof {
            lemma_plan_in_total(self.spec_plan(), i as int);
        }
        set_bits(&mut self.data, v, start, end);
        proof {
            let plan = self.spec_plan();
            let old_bytes = old(self).bytes();
            let new_bytes = self.bytes();
            assert forall|j: int|
                0 <= j < plan.fields@.len() && j != i as int implies bits_value(
                new_bytes,
                plan.fields@[j].start as int,
                plan.fields@[j].end as int,
            ) == bits_value(old_bytes, plan.fields@[j].start as int, plan.fields@[j].end as int) by {
                lemma_plan_in_total(plan, j);
                if j < i as int {
                    lemma_plan_ordered(plan, j, i as int);
                } else {
                    lemma_plan_ordered(plan, i as int, j);
                }
                assert forall|b: int|
                    plan.fields@[j].start as int <= b < plan.fields@[j].end as int implies bit_at(
                    new_bytes,
                    b,
                ) == bit_at(old_bytes, b) by {
                    assert(0 <= b < start as int || end as int <= b < 8 * new_bytes.len());
                }
                crate::bits::lemma_bits_value_congruence(
                    new_bytes,
                    old_bytes,
                    plan.fields@[j].start as int,
                    plan.fields@[j].end as int,
                );
            }
        }
    }

    /// Reads field `i` in its natural representation.
    pub fn get_hold(&self, i: usize) -> (h: HoldValue)
        requires
            self.wf(),
            i < self.spec_field_count(),
        ensures
            h == spec_to_hold(
                self.spec_plan().fields@[i as int].spec,
                self.field_value(i as int) as u64,
            ),
            hold_fits(self.spec_plan().fields@[i as int].spec, h),
            spec_from_hold(h) as int == self.field_value(i as int),
    {
        let raw = self.get_field(i);
        let s = self.plan.fields[i].spec;
        to_hold(&s, raw)
    }

    /// Writes field `i` from its natural representation. Reading it back
    /// now gives `h`, and every other field's stored value is unchanged.
    pub fn set_hold(&mut self, i: usize, h: HoldValue)
        requires
            old(self).wf(),
            i < old(self).spec_field_count(),
            hold_fits(old(self).spec_plan().fields@[i as int].spec, h),
        ensures
            final(self).wf(),
            final(self).spec_plan() == old(self).spec_plan(),
            final(self).field_value(i as int) == spec_from_hold(h),
            spec_to_hold(
                final(self).spec_plan().fields@[i as int].spec,
                spec_from_hold(h),
            ) == h,
            forall|j: int|
                0 <= j < old(self).spec_field_count() && j != i as int ==> final(self).field_value(
                    j,
                ) == old(self).field_value(j),
    {
        let s = self.plan.fields[i].spec;
        let raw = from_hold(&s, h);
        self.set_field(i, raw);
    }
}

} // verus!
