//! From a declared field list to an exact binary layout: each field's
//! specifier is resolved against the bindings, bit offsets are the prefix
//! sums of the widths in declaration order, and the total width must
//! divide into whole bytes or the derivation fails.

use vstd::prelude::*;
use crate::error::SemanticError;
use crate::specifier::Specifier;

verus! {

/// One declared field: its name and the name of its specifier type.
#[derive(Debug)]
pub struct FieldSpec {
    pub name: String,
    pub specifier: String,
}

/// The first binding for `name`, if any.
pub open spec fn spec_lookup(b: Seq<(String, Specifier)>, name: Seq<char>) -> Option<Specifier>
    decreases b.len(),
{
    if b.len() == 0 {
        None
    } else if b[0].0@ == name {
        Some(b[0].1)
    } else {
        spec_lookup(b.drop_first(), name)
    }
}

/// Finds the specifier bound to `name`.
pub fn lookup_specifier(bindings: &Vec<(String, Specifier)>, name: &String) -> (r: Option<
    Specifier,
>)
    ensures
        r == spec_lookup(bindings@, name@),
{
    let mut i: usize = 0;
    proof {
        assert(bindings@.skip(0) =~= bindings@);
    }
    while i < bindings.len()
        invariant
            0 <= i <= bindings@.len(),
            spec_lookup(bindings@, name@) == spec_lookup(bindings@.skip(i as int), name@),
        decreases bindings@.len() - i,
    {
        let hit = bindings[i].0 == *name;
        proof {
            let rest = bindings@.skip(i as int);
            assert(rest.len() > 0 && rest[0] == bindings@[i as int]);
            assert(rest.drop_first() =~= bindings@.skip(i as int + 1));
        }
        if hit {
            return Some(bindings[i].1);
        }
        i = i + 1;
    }
    proof {
        assert(bindings@.skip(bindings@.len() as int).len() == 0);
    }
    None
}

/// A successful lookup returns the specifier of one of the bindings.
pub proof fn lemma_lookup_in_bindings(b: Seq<(String, Specifier)>, name: Seq<char>)
    requires
        spec_lookup(b, name) is Some,
    ensures
        exists|k: int| 0 <= k < b.len() && (#[trigger] b[k].1) == spec_lookup(b, name)->Some_0,
    decreases b.len(),
{
    if b.len() > 0 && b[0].0@ != name {
        lemma_lookup_in_bindings(b.drop_first(), name);
        let k = choose|k: int|
            0 <= k < b.drop_first().len() && (#[trigger] b.drop_first()[k].1) == spec_lookup(
                b.drop_first(),
                name,
            )->Some_0;
        assert(b[k + 1].1 == spec_lookup(b, name)->Some_0);
    }
}

/// Bit offset of field `n`: the sum of the widths of the fields declared
/// before it.
pub open spec fn spec_offset(
    fields: Seq<FieldSpec>,
    bindings: Seq<(String, Specifier)>,
    n: int,
) -> int
    decreases n,
{
    if n <= 0 {
        0
    } else {
        spec_offset(fields, bindings, n - 1) + spec_lookup(
            bindings,
            fields[n - 1].specifier@,
        )->Some_0.bits
    }
}

/// Whether every field up to `n` resolves against the bindings.
pub open spec fn spec_all_resolve(
    fields: Seq<FieldSpec>,
    bindings: Seq<(String, Specifier)>,
    n: int,
) -> bool {
    forall|j: int| 0 <= j < n ==> spec_lookup(bindings, fields[j].specifier@) is Some
}

/// The outcome of the width check: the total bit count and the byte
/// count it divides into.
#[derive(Clone, Copy, Debug, PartialEq, Eq, Structural)]
pub struct BitsCheck {
    pub total_bits: u64,
    pub byte_count: usize,
}

/// One field with its layout decided: its resolved specifier and the bit
/// range `[start, end)` it occupies.
#[derive(Debug)]
pub struct PlannedField {
    pub name: String,
    pub spec: Specifier,
    pub start: usize,
    pub end: usize,
}

/// A complete layout: every field placed, and the total checked to be a
/// whole number of bytes.
#[derive(Debug)]
pub struct BitfieldPlan {
    pub fields: Vec<PlannedField>,
    pub size: BitsCheck,
}

impl BitfieldPlan {
    /// Fields are laid end to end from bit 0, each 1 to 64 bits wide with
    /// a well-formed specifier; the total is a multiple of eight and the
    /// byte count is its eighth.
    pub open spec fn wf(self) -> bool {
        &&& self.fields@.len() >= 1
        &&& self.fields@[0].start == 0
        &&& forall|i: int|
            0 <= i < self.fields@.len() ==> {
                &&& (#[trigger] self.fields@[i]).spec.wf()
                &&& 1 <= self.fields@[i].spec.bits <= 64
                &&& self.fields@[i].end == self.fields@[i].start + self.fields@[i].spec.bits
                &&& (i > 0 ==> self.fields@[i].start == self.fields@[i - 1].end)
            }
        &&& self.size.total_bits == self.fields@[self.fields@.len() - 1].end
        &&& self.size.total_bits % 8 == 0
        &&& 8 * self.size.byte_count == self.size.total_bits
    }
}

impl BitfieldPlan {
    /// Finds the first field carrying `name`, as the accessors are keyed
    /// by field name.
    pub fn field_index(&self, name: &String) -> (r: Option<usize>)
        ensures
            match r {
                Some(i) => {
                    &&& i < self.fields@.len()
                    &&& self.fields@[i as int].name@ == name@
                    &&& forall|j: int| 0 <= j < i ==> (#[trigger] self.fields@[j]).name@ != name@
                },
                None => forall|j: int|
                    0 <= j < self.fields@.len() ==> (#[trigger] self.fields@[j]).name@ != name@,
            },
    {
        let mut i: usize = 0;
        while i < self.fields.len()
            invariant
                0 <= i <= self.fields@.len(),
                forall|j: int| 0 <= j < i ==> (#[trigger] self.fields@[j]).name@ != name@,
            decreases self.fields@.len() - i,
        {
            if self.fields[i].name == *name {
                return Some(i);
            }
            i = i + 1;
        }
        None
    }
}

/// Fields laid end to end do not overlap: an earlier field ends no later
/// than a later field starts.
pub proof fn lemma_plan_ordered(plan: BitfieldPlan, j: int, i: int)
    requires
        plan.wf(),
        0 <= j < i < plan.fields@.len(),
    ensures
        plan.fields@[j].end <= plan.fields@[i].start,
    decreases i,
{
    if j == i - 1 {
    } else {
        lemma_plan_ordered(plan, j, i - 1);
    }
}

/// Every field ends within the checked total.
pub proof fn lemma_plan_in_total(plan: BitfieldPlan, i: int)
    requires
        plan.wf(),
        0 <= i < plan.fields@.len(),
    ensures
        plan.fields@[i].end <= plan.size.total_bits,
    decreases plan.fields@.len() - i,
{
    if i == plan.fields@.len() - 1 {
    } else {
        lemma_plan_in_total(plan, i + 1);
        lemma_plan_ordered(plan, i, i + 1);
    }
}

/// Resolves each field's specifier name against the bindings, in
/// declaration order, stopping at the first field whose name is unbound.
fn resolve_fields(fields: &Vec<FieldSpec>, bindings: &Vec<(String, Specifier)>) -> (r: Result<
    Vec<Specifier>,
    SemanticError,
>)
    requires
        forall|k: int|
            0 <= k < bindings@.len() ==> (#[trigger] bindings@[k].1).wf() && 1 <= bindings@[k].1.bits,
    ensures
        spec_all_resolve(fields@, bindings@, fields@.len() as int) <==> r is Ok,
        r is Ok ==> {
            &&& r->Ok_0@.len() == fields@.len()
            &&& forall|j: int|
                0 <= j < fields@.len() ==> spec_lookup(bindings@, fields@[j].specifier@) == Some(
                    #[trigger] r->Ok_0@[j],
                )
            &&& forall|j: int|
                0 <= j < fields@.len() ==> (#[trigger] r->Ok_0@[j]).wf() && 1 <= r->Ok_0@[j].bits
                    <= 64
        },
        forall|i: int|
            0 <= i < fields@.len() && spec_lookup(bindings@, fields@[i].specifier@) is None
                && spec_all_resolve(fields@, bindings@, i) ==> r == Err::<
                Vec<Specifier>,
                SemanticError,
            >(SemanticError::UnknownSpecifier { field: i as usize }),
{
    let n = fields.len();
    let mut resolved: Vec<Specifier> = Vec::new();
    let mut i: usize = 0;
    while i < n
        invariant
            0 <= i <= n,
            n == fields@.len(),
            resolved@.len() == i,
            forall|k: int|
                0 <= k < bindings@.len() ==> (#[trigger] bindings@[k].1).wf() && 1
                    <= bindings@[k].1.bits,
            forall|j: int|
                0 <= j < i ==> spec_lookup(bindings@, fields@[j].specifier@) == Some(
                    #[trigger] resolved@[j],
                ),
        decreases n - i,
    {
        let found = lookup_specifier(bindings, &fields[i].specifier);
        match found {
            None => {
                proof {
                    assert forall|t: int|
                        0 <= t < fields@.len() && spec_lookup(bindings@, fields@[t].specifier@)
                            is None && spec_all_resolve(fields@, bindings@, t) implies t
                        == i as int by {
                        if t < i as int {
                            assert(spec_lookup(bindings@, fields@[t].specifier@) == Some(
                                resolved@[t],
                            ));
                        } else if t > i as int {
                            assert(spec_lookup(bindings@, fields@[i as int].specifier@) is None);
                            assert(!spec_all_resolve(fields@, bindings@, t));
                        }
                    }
                    assert(!spec_all_resolve(fields@, bindings@, fields@.len() as int));
                }
                return Err(SemanticError::UnknownSpecifier { field: i });
            },
            Some(s) => {
                resolved.push(s);
            },
        }
        i = i + 1;
    }
    proof {
        assert forall|j: int| 0 <= j < n implies (#[trigger] resolved@[j]).wf() && 1
            <= resolved@[j].bits <= 64 by {
            lemma_lookup_in_bindings(bindings@, fields@[j].specifier@);
            let kk = choose|kk: int|
                0 <= kk < bindings@.len() && (#[trigger] bindings@[kk].1) == spec_lookup(
                    bindings@,
                    fields@[j].specifier@,
                )->Some_0;
            assert(bindings@[kk].1.wf());
        }
        assert forall|j: int| 0 <= j < fields@.len() implies spec_lookup(
            bindings@,
            fields@[j].specifier@,
        ) is Some by {
            assert(spec_lookup(bindings@, fields@[j].specifier@) == Some(resolved@[j]));
        }
        assert(spec_all_resolve(fields@, bindings@, fields@.len() as int));
    }
    Ok(resolved)
}

/// Bit offset of field `n` over already-resolved specifiers.
pub open spec fn spec_offset_resolved(resolved: Seq<Specifier>, n: int) -> int
    decreases n,
{
    if n <= 0 {
        0
    } else {
        spec_offset_resolved(resolved, n - 1) + resolved[n - 1].bits
    }
}

/// When every field resolves, the two offset readings agree.
proof fn lemma_offset_resolved_matches(
    fields: Seq<FieldSpec>,
    bindings: Seq<(String, Specifier)>,
    resolved: Seq<Specifier>,
    n: int,
)
    requires
        0 <= n <= fields.len(),
        resolved.len() == fields.len(),
        forall|j: int|
            0 <= j < fields.len() ==> spec_lookup(bindings, fields[j].specifier@) == Some(
                #[trigger] resolved[j],
            ),
    ensures
        spec_offset(fields, bindings, n) == spec_offset_resolved(resolved, n),
    decreases n,
{
    if n > 0 {
        lemma_offset_resolved_matches(fields, bindings, resolved, n - 1);
    }
}

/// Places the fields at the prefix sums of their widths.
fn place_fields(fields: &Vec<FieldSpec>, resolved: &Vec<Specifier>) -> (r: (Vec<
    PlannedField,
>, usize))
    requires
        fields@.len() == resolved@.len(),
        fields@.len() <= 0x0200_0000,
        forall|j: int|
            0 <= j < resolved@.len() ==> (#[trigger] resolved@[j]).wf() && 1 <= resolved@[j].bits
                <= 64,
    ensures
        r.0@.len() == fields@.len(),
        r.1 as int == spec_offset_resolved(resolved@, fields@.len() as int),
        forall|j: int|
            0 <= j < fields@.len() ==> {
                &&& (#[trigger] r.0@[j]).name@ == fields@[j].name@
                &&& r.0@[j].spec == resolved@[j]
                &&& r.0@[j].start == spec_offset_resolved(resolved@, j)
                &&& r.0@[j].end == spec_offset_resolved(resolved@, j + 1)
            },
{
    let n = fields.len();
    let mut planned: Vec<PlannedField> = Vec::new();
    let mut start: usize = 0;
    let mut k: usize = 0;
    while k < n
        invariant
            0 <= k <= n,
            n == fields@.len(),
            fields@.len() <= 0x0200_0000,
            resolved@.len() == n,
            planned@.len() == k,
            forall|j: int| 0 <= j < n ==> (#[trigger] resolved@[j]).wf() && 1 <= resolved@[j].bits
                <= 64,
            start as int == spec_offset_resolved(resolved@, k as int),
            start <= 64 * k,
            forall|j: int|
                0 <= j < k ==> {
                    &&& (#[trigger] planned@[j]).name@ == fields@[j].name@
                    &&& planned@[j].spec == resolved@[j]
                    &&& planned@[j].start == spec_offset_resolved(resolved@, j)
                    &&& planned@[j].end == spec_offset_resolved(resolved@, j + 1)
                },
        decreases n - k,
    {
        let bits = resolved[k].bits as usize;
        let fin = start + bits;
        planned.push(
            PlannedField { name: fields[k].name.clone(), spec: resolved[k], start, end: fin },
        );
        start = fin;
        k = k + 1;
    }
    (planned, start)
}

/// Plans the layout of `fields` against `bindings`: resolves each field's
/// specifier (failing at the first field whose type is unbound), places
/// the fields at the prefix sums of their widths, and checks that the
/// total is a whole number of bytes (failing otherwise).
#[verifier::rlimit(50)]
pub fn generate(fields: &Vec<FieldSpec>, bindings: &Vec<(String, Specifier)>) -> (r: Result<
    BitfieldPlan,
    SemanticError,
>)
    requires
        fields@.len() >= 1,
        fields@.len() <= 0x0200_0000,
        forall|k: int|
            0 <= k < bindings@.len() ==> (#[trigger] bindings@[k].1).wf() && 1 <= bindings@[k].1.bits,
    ensures
        r is Ok ==> spec_all_resolve(fields@, bindings@, fields@.len() as int) && spec_offset(
            fields@,
            bindings@,
            fields@.len() as int,
        ) % 8 == 0,
        forall|i: int|
            0 <= i < fields@.len() && spec_lookup(bindings@, fields@[i].specifier@) is None
                && spec_all_resolve(fields@, bindings@, i) ==> r == Err::<
                BitfieldPlan,
                SemanticError,
            >(SemanticError::UnknownSpecifier { field: i as usize }),
        spec_all_resolve(fields@, bindings@, fields@.len() as int) && spec_offset(
            fields@,
            bindings@,
            fields@.len() as int,
        ) % 8 != 0 ==> r == Err::<BitfieldPlan, SemanticError>(
            SemanticError::TotalSizeNotMultipleOfEight {
                total_bits: spec_offset(fields@, bindings@, fields@.len() as int) as u64,
            },
        ),
        spec_all_resolve(fields@, bindings@, fields@.len() as int) && spec_offset(
            fields@,
            bindings@,
            fields@.len() as int,
        ) % 8 == 0 ==> {
            &&& r is Ok
            &&& r->Ok_0.wf()
            &&& r->Ok_0.fields@.len() == fields@.len()
            &&& forall|i: int|
                0 <= i < fields@.len() ==> {
                    &&& (#[trigger] r->Ok_0.fields@[i]).name@ == fields@[i].name@
                    &&& r->Ok_0.fields@[i].spec == spec_lookup(
                        bindings@,
                        fields@[i].specifier@,
                    )->Some_0
                    &&& r->Ok_0.fields@[i].start == spec_offset(fields@, bindings@, i)
                    &&& r->Ok_0.fields@[i].end == spec_offset(fields@, bindings@, i + 1)
                }
            &&& r->Ok_0.size.total_bits == spec_offset(fields@, bindings@, fields@.len() as int)
            &&& 8 * r->Ok_0.size.byte_count == r->Ok_0.size.total_bits
        },
{
    let n = fields.len();
    let resolved = match resolve_fields(fields, bindings) {
        Err(e) => {
            return Err(e);
        },
        Ok(v) => v,
    };
    let pair = place_fields(fields, &resolved);
    let planned = pair.0;
    let total = pair.1;
    proof {
        lemma_offset_resolved_matches(fields@, bindings@, resolved@, n as int);
        assert forall|j: int| 0 <= j <= n implies spec_offset(fields@, bindings@, j)
            == spec_offset_resolved(resolved@, j) by {
            lemma_offset_resolved_matches(fields@, bindings@, resolved@, j);
        }
    }
    if total % 8 != 0 {
        return Err(SemanticError::TotalSizeNotMultipleOfEight { total_bits: total as u64 });
    }
    let plan = BitfieldPlan {
        fields: planned,
        size: BitsCheck { total_bits: total as u64, byte_count: total / 8 },
    };
    proof {
        assert(plan.fields@.len() == n);
        assert forall|j: int|
            0 <= j < n implies {
            &&& (#[trigger] plan.fields@[j]).spec.wf()
            &&& 1 <= plan.fields@[j].spec.bits <= 64
            &&& plan.fields@[j].end == plan.fields@[j].start + plan.fields@[j].spec.bits
            &&& (j > 0 ==> plan.fields@[j].start == plan.fields@[j - 1].end)
        } by {
            assert(plan.fields@[j].spec == resolved@[j]);
            assert(spec_offset_resolved(resolved@, j + 1) == spec_offset_resolved(resolved@, j)
                + resolved@[j].bits);
            if j > 0 {
                assert(plan.fields@[j - 1].end == spec_offset_resolved(resolved@, j));
            }
        }
        assert(plan.size.total_bits == plan.fields@[plan.fields@.len() - 1].end);
        assert(plan.wf());
    }
    Ok(plan)
}

/// The byte-multiple obligation a checked layout carries: its total bit
/// width divides into whole bytes.
pub trait TotalSizeIsMultipleOfEightBits {
    /// Whether the check has been established.
    spec fn size_checked(&self) -> bool;

    /// The total width in bits.
    spec fn total_bit_count(&self) -> int;

    /// A checked total is a multiple of eight.
    proof fn size_is_multiple_of_eight(&self)
        requires
            self.size_checked(),
        ensures
            self.total_bit_count() % 8 == 0,
    ;
}

impl TotalSizeIsMultipleOfEightBits for BitfieldPlan {
    open spec fn size_checked(&self) -> bool {
        self.wf()
    }

    open spec fn total_bit_count(&self) -> int {
        self.size.total_bits as int
    }

    proof fn size_is_multiple_of_eight(&self) {
    }
}

} // verus!
