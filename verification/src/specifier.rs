//! Specifiers: the binding of a bit width to a natural value
//! representation (boolean, fixed-width unsigned integer, or a user enum
//! with a power-of-two variant count), with the conversions between the
//! raw bit-packed form and that representation, and the fixed table of
//! width specifiers `bool`, `B1` .. `B64`.

use vstd::prelude::*;
use vstd::arithmetic::power2::{pow2, lemma_pow2_adds, lemma_pow2_pos, lemma2_to64};
use vstd::string::StringExecFns;
use crate::digits::{dec_digits, push_decimal};
use crate::error::SemanticError;

verus! {

/// The natural representation a field is read and written as.
#[derive(Clone, Copy, Debug, PartialEq, Eq, Structural)]
pub enum HoldKind {
    /// A single bit read as a boolean.
    Bool,
    /// An unsigned integer carried in a holder of `holder_bits` bits.
    Uint { holder_bits: u64 },
    /// A user enum of `variants` variants, carried as its discriminant.
    UserEnum { variants: u64 },
}

/// A specifier: a bit width together with the hold representation bound
/// to it.
#[derive(Clone, Copy, Debug, PartialEq, Eq, Structural)]
pub struct Specifier {
    pub bits: u64,
    pub hold: HoldKind,
}

/// A value in a field's natural representation.
#[derive(Clone, Copy, Debug, PartialEq, Eq, Structural)]
pub enum HoldValue {
    Bool(bool),
    Uint(u64),
    Variant(u64),
}

impl Specifier {
    /// A boolean specifier is one bit; an integer specifier fits its
    /// holder; an enum specifier's variant count is exactly two to its
    /// width.
    pub open spec fn wf(self) -> bool {
        match self.hold {
            HoldKind::Bool => self.bits == 1,
            HoldKind::Uint { holder_bits } => 1 <= self.bits <= 64 && (holder_bits == 8
                || holder_bits == 16 || holder_bits == 32 || holder_bits == 64) && self.bits
                <= holder_bits,
            HoldKind::UserEnum { variants } => self.bits <= 64 && variants == pow2(
                self.bits as nat,
            ),
        }
    }
}

/// The hold value a raw field value converts to.
pub open spec fn spec_to_hold(s: Specifier, raw: u64) -> HoldValue {
    match s.hold {
        HoldKind::Bool => HoldValue::Bool(raw % 2 == 1),
        HoldKind::Uint { .. } => HoldValue::Uint(raw),
        HoldKind::UserEnum { .. } => HoldValue::Variant(raw),
    }
}

/// The raw value a hold value converts back to.
pub open spec fn spec_from_hold(h: HoldValue) -> u64 {
    match h {
        HoldValue::Bool(b) => if b {
            1
        } else {
            0
        },
        HoldValue::Uint(v) => v,
        HoldValue::Variant(d) => d,
    }
}

/// Which hold values a specifier can store: the right shape, within the
/// field's range.
pub open spec fn hold_fits(s: Specifier, h: HoldValue) -> bool {
    match h {
        HoldValue::Bool(_) => s.hold is Bool,
        HoldValue::Uint(v) => s.hold is Uint && (v as int) < pow2(s.bits as nat),
        HoldValue::Variant(d) => match s.hold {
            HoldKind::UserEnum { variants } => d < variants,
            _ => false,
        },
    }
}

/// Converts a raw field value to the specifier's natural representation.
/// Converting back returns the raw value unchanged.
pub fn to_hold(s: &Specifier, raw: u64) -> (h: HoldValue)
    requires
        s.wf(),
        (raw as int) < pow2(s.bits as nat),
    ensures
        h == spec_to_hold(*s, raw),
        hold_fits(*s, h),
        spec_from_hold(h) == raw,
{
    proof {
        if s.hold is Bool {
            assert(pow2(1) == 2) by {
                lemma2_to64();
            }
        }
    }
    match s.hold {
        HoldKind::Bool => HoldValue::Bool(raw % 2 == 1),
        HoldKind::Uint { .. } => HoldValue::Uint(raw),
        HoldKind::UserEnum { .. } => HoldValue::Variant(raw),
    }
}

/// Converts a hold value back to the raw field value. Converting forward
/// again returns the hold value unchanged.
pub fn from_hold(s: &Specifier, h: HoldValue) -> (raw: u64)
    requires
        s.wf(),
        hold_fits(*s, h),
    ensures
        raw == spec_from_hold(h),
        (raw as int) < pow2(s.bits as nat),
        spec_to_hold(*s, raw) == h,
{
    proof {
        lemma_pow2_pos(s.bits as nat);
        if s.hold is Bool {
            assert(pow2(1) == 2) by {
                lemma2_to64();
            }
        }
    }
    match h {
        HoldValue::Bool(b) => if b {
            1
        } else {
            0
        },
        HoldValue::Uint(v) => v,
        HoldValue::Variant(d) => d,
    }
}

/// Converting a raw field value to its natural representation and back
/// returns it unchanged.
pub proof fn lemma_raw_round_trip(s: Specifier, raw: u64)
    requires
        s.wf(),
        (raw as int) < pow2(s.bits as nat),
    ensures
        spec_from_hold(spec_to_hold(s, raw)) == raw,
{
    if s.hold is Bool {
        assert(pow2(1) == 2) by {
            lemma2_to64();
        }
    }
}

/// Converting a hold value to raw bits and back returns it unchanged; in
/// particular every variant of an enum specifier survives the round
/// trip.
pub proof fn lemma_hold_round_trip(s: Specifier, h: HoldValue)
    requires
        s.wf(),
        hold_fits(s, h),
    ensures
        spec_to_hold(s, spec_from_hold(h)) == h,
{
    if s.hold is Bool {
        assert(pow2(1) == 2) by {
            lemma2_to64();
        }
    }
}

/// Whether `n` is an exact power of two.
pub open spec fn spec_is_power_of_two(n: nat) -> bool
    decreases n,
{
    if n == 0 {
        false
    } else if n == 1 {
        true
    } else {
        n % 2 == 0 && spec_is_power_of_two(n / 2)
    }
}

/// The base-two logarithm, rounded down.
pub open spec fn spec_log2(n: nat) -> nat
    decreases n,
{
    if n <= 1 {
        0
    } else {
        1 + spec_log2(n / 2)
    }
}

/// A power of two is two to its logarithm.
pub proof fn lemma_pow2_log2(n: nat)
    requires
        spec_is_power_of_two(n),
    ensures
        pow2(spec_log2(n)) == n,
    decreases n,
{
    if n == 1 {
        assert(pow2(0) == 1) by {
            lemma2_to64();
        }
    } else {
        lemma_pow2_log2(n / 2);
        lemma_pow2_adds(1, spec_log2((n / 2) as nat));
        assert(pow2(1) == 2) by {
            lemma2_to64();
        }
    }
}

/// Derives the specifier for a user enum: the variant count must be an
/// exact power of two, and the width is then its logarithm. An enum with
/// three variants fails; one with four derives width two.
pub fn derive_enum_specifier(variant_count: u64) -> (r: Result<Specifier, SemanticError>)
    ensures
        spec_is_power_of_two(variant_count as nat) ==> r == Ok::<Specifier, SemanticError>(
            Specifier {
                bits: spec_log2(variant_count as nat) as u64,
                hold: HoldKind::UserEnum { variants: variant_count },
            },
        ) && r->Ok_0.wf(),
        !spec_is_power_of_two(variant_count as nat) ==> r == Err::<Specifier, SemanticError>(
            SemanticError::NonPowerOfTwoVariants { count: variant_count },
        ),
{
    if variant_count == 0 {
        return Err(SemanticError::NonPowerOfTwoVariants { count: variant_count });
    }
    let mut n = variant_count;
    let mut bits: u64 = 0;
    proof {
        assert(pow2(0) == 1) by {
            lemma2_to64();
        }
    }
    while n > 1
        invariant
            1 <= n <= variant_count,
            variant_count as int == n as int * pow2(bits as nat),
            spec_is_power_of_two(variant_count as nat) == spec_is_power_of_two(n as nat),
            spec_log2(variant_count as nat) == bits + spec_log2(n as nat),
            bits <= 64,
        decreases n,
    {
        if n % 2 == 1 {
            return Err(SemanticError::NonPowerOfTwoVariants { count: variant_count });
        }
        proof {
            lemma_pow2_adds(1, bits as nat);
            assert(pow2(1) == 2) by {
                lemma2_to64();
            }
            assert((n as int / 2) * (pow2(bits as nat) as int * 2) == n as int * pow2(
                bits as nat,
            )) by (nonlinear_arith)
                requires
                    n as int % 2 == 0,
            ;
            lemma_pow2_pos(bits as nat);
            assert(bits < 64) by {
                if bits >= 64 {
                    assert(pow2(64) == 0x10000000000000000) by {
                        vstd::arithmetic::power2::lemma2_to64_rest();
                    }
                    assert(pow2(bits as nat) >= pow2(64)) by {
                        if bits > 64 {
                            vstd::arithmetic::power2::lemma_pow2_strictly_increases(
                                64,
                                bits as nat,
                            );
                        }
                    }
                    assert(n as int * pow2(bits as nat) >= pow2(bits as nat)) by (nonlinear_arith)
                        requires
                            n >= 1,
                            pow2(bits as nat) >= 1,
                    ;
                }
            }
        }
        n = n / 2;
        bits = bits + 1;
    }
    proof {
        assert(variant_count as int == pow2(bits as nat)) by (nonlinear_arith)
            requires
                variant_count as int == n as int * pow2(bits as nat),
                n == 1,
        ;
    }
    Ok(Specifier { bits, hold: HoldKind::UserEnum { variants: variant_count } })
}

/// The holder width for a field width: widths 1-8 are carried in 8 bits,
/// 9-16 in 16, 17-32 in 32, and 33-64 in 64.
pub open spec fn spec_holder_bits(w: int) -> int {
    if w <= 8 {
        8
    } else if w <= 16 {
        16
    } else if w <= 32 {
        32
    } else {
        64
    }
}

/// Builds the fixed specifier table: `bool`, then one entry `B<w>` for
/// every width `w` from 1 to 64, each bound to its holder class. Built
/// once and read-only thereafter.
pub fn make_specifier_table() -> (t: Vec<(String, Specifier)>)
    ensures
        t@.len() == 65,
        t@[0].0@ == "bool"@,
        t@[0].1 == (Specifier { bits: 1, hold: HoldKind::Bool }),
        forall|i: int|
            1 <= i <= 64 ==> #[trigger] t@[i].0@ == seq!['B'] + dec_digits(i as nat) && t@[i].1
                == (Specifier {
                bits: i as u64,
                hold: HoldKind::Uint { holder_bits: spec_holder_bits(i) as u64 },
            }),
        forall|i: int| 0 <= i < 65 ==> (#[trigger] t@[i].1).wf() && 1 <= t@[i].1.bits <= 64,
{
    let mut t: Vec<(String, Specifier)> = Vec::new();
    t.push(("bool".to_owned(), Specifier { bits: 1, hold: HoldKind::Bool }));
    let mut w: u64 = 1;
    while w <= 64
        invariant
            1 <= w <= 65,
            t@.len() == w,
            t@[0].0@ == "bool"@,
            t@[0].1 == (Specifier { bits: 1, hold: HoldKind::Bool }),
            forall|i: int|
                1 <= i < w ==> #[trigger] t@[i].0@ == seq!['B'] + dec_digits(i as nat) && t@[i].1
                    == (Specifier {
                    bits: i as u64,
                    hold: HoldKind::Uint { holder_bits: spec_holder_bits(i) as u64 },
                }),
        decreases 65 - w,
    {
        let mut name = String::new();
        name.append("B");
        push_decimal(&mut name, w);
        proof {
            reveal_strlit("B");
            assert(name@ =~= seq!['B'] + dec_digits(w as nat));
        }
        let hb: u64 = if w <= 8 {
            8
        } else if w <= 16 {
            16
        } else if w <= 32 {
            32
        } else {
            64
        };
        t.push((name, Specifier { bits: w, hold: HoldKind::Uint { holder_bits: hb } }));
        w = w + 1;
    }
    proof {
        assert forall|i: int| 0 <= i < 65 implies (#[trigger] t@[i].1).wf() && 1 <= t@[i].1.bits
            <= 64 by {
            if i == 0 {
                assert(t@[0].1.wf() && t@[0].1.bits == 1);
            } else {
                assert(t@[i].0@ == seq!['B'] + dec_digits(i as nat));
                assert(t@[i].1 == (Specifier {
                    bits: i as u64,
                    hold: HoldKind::Uint { holder_bits: spec_holder_bits(i) as u64 },
                }));
            }
        }
    }
    t
}

/// The discriminant-range obligation an enum-backed specifier carries:
/// every discriminant the enum can produce lies below two to the field's
/// width.
pub trait DiscriminantInRange {
    /// How many discriminants there are.
    spec fn discriminant_bound(&self) -> nat;

    /// The field width in bits.
    spec fn width(&self) -> nat;

    /// Every discriminant below the bound fits in the width.
    proof fn discriminant_in_range(&self, d: nat)
        requires
            d < self.discriminant_bound(),
        ensures
            d < pow2(self.width()),
    ;
}

impl DiscriminantInRange for Specifier {
    /// A well-formed enum specifier answers its variant count; any other
    /// specifier has no discriminants to account for.
    open spec fn discriminant_bound(&self) -> nat {
        match self.hold {
            HoldKind::UserEnum { variants } => if self.wf() {
                variants as nat
            } else {
                0
            },
            _ => 0,
        }
    }

    open spec fn width(&self) -> nat {
        self.bits as nat
    }

    proof fn discriminant_in_range(&self, d: nat) {
    }
}

} // verus!
