//! The RAM-search panel's logic: the operator picker, turning the typed
//! operator and value into a search step, and rendering candidate values.
use vstd::prelude::*;
use crate::fmt::{dec, dec_signed, hex, push_dec, push_dec_signed, push_hex, push_str};
use crate::memory::{search_size_len, search_value, search_value_exec, SearchCompare, SearchSize, SearchSource};
use crate::parse::{parse_digits, parse_i32_in, parse_i64_in, parse_signed, parse_unsigned, parse_unsigned_in, trim, trim_bounds};

verus! {

/// The operator the user picks; `DifferentBy` takes its delta separately.
#[derive(Clone, Copy, PartialEq, Eq, Debug, Structural)]
pub enum CompareKind {
    Equal,
    NotEqual,
    Less,
    Greater,
    Changed,
    Unchanged,
    Increased,
    Decreased,
    DifferentBy,
}

pub open spec fn compare_kind_label(k: CompareKind) -> Seq<char> {
    match k {
        CompareKind::Equal => "= Equal"@,
        CompareKind::NotEqual => "\u{2260} Not equal"@,
        CompareKind::Less => "< Less"@,
        CompareKind::Greater => "> Greater"@,
        CompareKind::Changed => "\u{2248} Changed"@,
        CompareKind::Unchanged => "= Unchanged"@,
        CompareKind::Increased => "\u{2191} Increased"@,
        CompareKind::Decreased => "\u{2193} Decreased"@,
        CompareKind::DifferentBy => "\u{b1} Different by"@,
    }
}

/// Operators that compare against the previous snapshot only.
pub open spec fn kind_is_relative(k: CompareKind) -> bool {
    k == CompareKind::Changed || k == CompareKind::Unchanged || k == CompareKind::Increased
        || k == CompareKind::Decreased
}

/// Operators that can compare against a specific value.
pub open spec fn kind_takes_value(k: CompareKind) -> bool {
    k == CompareKind::Equal || k == CompareKind::NotEqual || k == CompareKind::Less || k == CompareKind::Greater
}

impl CompareKind {
    /// Every operator, in picker order.
    pub fn all() -> (v: Vec<CompareKind>)
        ensures
            v@ == seq![
                CompareKind::Equal, CompareKind::NotEqual, CompareKind::Less, CompareKind::Greater,
                CompareKind::Changed, CompareKind::Unchanged, CompareKind::Increased, CompareKind::Decreased,
                CompareKind::DifferentBy,
            ],
    {
        vec![
            CompareKind::Equal, CompareKind::NotEqual, CompareKind::Less, CompareKind::Greater,
            CompareKind::Changed, CompareKind::Unchanged, CompareKind::Increased, CompareKind::Decreased,
            CompareKind::DifferentBy,
        ]
    }

    pub fn label(self) -> (s: &'static str)
        ensures
            s@ == compare_kind_label(self),
    {
        match self {
            CompareKind::Equal => "= Equal",
            CompareKind::NotEqual => "\u{2260} Not equal",
            CompareKind::Less => "< Less",
            CompareKind::Greater => "> Greater",
            CompareKind::Changed => "\u{2248} Changed",
            CompareKind::Unchanged => "= Unchanged",
            CompareKind::Increased => "\u{2191} Increased",
            CompareKind::Decreased => "\u{2193} Decreased",
            CompareKind::DifferentBy => "\u{b1} Different by",
        }
    }

    /// Whether this operator compares against the previous snapshot only
    /// (so the specific-value choice is irrelevant).
    pub fn is_relative(self) -> (b: bool)
        ensures
            b == kind_is_relative(self),
    {
        match self {
            CompareKind::Changed | CompareKind::Unchanged | CompareKind::Increased | CompareKind::Decreased => true,
            _ => false,
        }
    }

    /// Whether this operator can compare against a specific value.
    pub fn takes_value(self) -> (b: bool)
        ensures
            b == kind_takes_value(self),
    {
        match self {
            CompareKind::Equal | CompareKind::NotEqual | CompareKind::Less | CompareKind::Greater => true,
            _ => false,
        }
    }
}

/// RAM-search panel state.
pub struct RamSearchPanel {
    /// The comparison of the last step taken.
    pub compare: SearchCompare,
    /// The operator picker's selection.
    pub compare_kind: CompareKind,
    /// Compare against a typed value rather than the previous snapshot.
    pub use_specific: bool,
    pub specific_value: String,
    pub diff_by: String,
}

/// The value typed for "specific value": trimmed; `0x`/`0X` forces hex;
/// otherwise hex when the panel shows hex, else unsigned decimal or, failing
/// that, a negative decimal taken as its 32-bit pattern.
pub open spec fn typed_value(s: Seq<char>, hex: bool) -> Option<u32> {
    let t = trim(s);
    if t.len() == 0 {
        None
    } else if t.len() >= 2 && t[0] == '0' && (t[1] == 'x' || t[1] == 'X') {
        match parse_unsigned(t.skip(2), 16, 0xffff_ffff) {
            Some(v) => Some(v as u32),
            None => None,
        }
    } else if hex {
        match parse_unsigned(t, 16, 0xffff_ffff) {
            Some(v) => Some(v as u32),
            None => None,
        }
    } else {
        match parse_unsigned(t, 10, 0xffff_ffff) {
            Some(v) => Some(v as u32),
            None => match parse_signed(t, 10, 0x8000_0000, 0x7fff_ffff) {
                Some(v) => Some((if v < 0 { v + 0x1_0000_0000 } else { v }) as u32),
                None => None,
            },
        }
    }
}

/// The step a panel state asks for, or `None` when a needed number does not
/// parse.
pub open spec fn resolved(k: CompareKind, use_specific: bool, value: Seq<char>, diff_by: Seq<char>, hex: bool) -> Option<(SearchCompare, SearchSource)> {
    let compare = match k {
        CompareKind::Equal => Some(SearchCompare::Equal),
        CompareKind::NotEqual => Some(SearchCompare::NotEqual),
        CompareKind::Less => Some(SearchCompare::Less),
        CompareKind::Greater => Some(SearchCompare::Greater),
        CompareKind::Changed => Some(SearchCompare::Changed),
        CompareKind::Unchanged => Some(SearchCompare::Unchanged),
        CompareKind::Increased => Some(SearchCompare::Increased),
        CompareKind::Decreased => Some(SearchCompare::Decreased),
        CompareKind::DifferentBy => match parse_signed(trim(diff_by), 10, 0x8000_0000_0000_0000, 0x7fff_ffff_ffff_ffff) {
            Some(d) => Some(SearchCompare::DifferentBy(d as i64)),
            None => None,
        },
    };
    match compare {
        None => None,
        Some(c) => if kind_takes_value(k) && use_specific {
            match typed_value(value, hex) {
                Some(v) => Some((c, SearchSource::SpecificValue(v))),
                None => None,
            }
        } else {
            Some((c, SearchSource::PreviousSnapshot))
        },
    }
}

/// Reads the typed specific value (see [`typed_value`]).
pub fn parse_typed_value(s: &str, hex: bool) -> (r: Option<u32>)
    ensures
        r == typed_value(s@, hex),
{
    let (lo, hi) = trim_bounds(s);
    let ghost t = s@.subrange(lo as int, hi as int);
    if lo == hi {
        return None;
    }
    if hi - lo >= 2 && s.get_char(lo) == '0' && (s.get_char(lo + 1) == 'x' || s.get_char(lo + 1) == 'X') {
        proof {
            assert(t.skip(2) =~= s@.subrange(lo + 2, hi as int));
        }
        match parse_unsigned_in(s, lo + 2, hi, 16, 0xffff_ffff) {
            Some(v) => Some(v as u32),
            None => None,
        }
    } else if hex {
        match parse_unsigned_in(s, lo, hi, 16, 0xffff_ffff) {
            Some(v) => Some(v as u32),
            None => None,
        }
    } else {
        match parse_unsigned_in(s, lo, hi, 10, 0xffff_ffff) {
            Some(v) => Some(v as u32),
            None => match parse_i32_in(s, lo, hi) {
                Some(v) => {
                    let w: u32 = if v < 0 { (v as i64 + 0x1_0000_0000i64) as u32 } else { v as u32 };
                    Some(w)
                },
                None => None,
            },
        }
    }
}

impl RamSearchPanel {
    pub fn new() -> (p: Self)
        ensures
            p.compare == SearchCompare::Equal,
            p.compare_kind == CompareKind::Equal,
            p.use_specific,
            p.specific_value@.len() == 0,
            p.diff_by@.len() == 0,
    {
        RamSearchPanel {
            compare: SearchCompare::Equal,
            compare_kind: CompareKind::Equal,
            use_specific: true,
            specific_value: String::new(),
            diff_by: String::new(),
        }
    }

    /// Build the (compare, source) pair of the next search step from the
    /// panel state, parsing the typed numbers.
    pub fn resolve(&self, hex: bool) -> (r: Option<(SearchCompare, SearchSource)>)
        ensures
            r == resolved(self.compare_kind, self.use_specific, self.specific_value@, self.diff_by@, hex),
    {
        let compare = match self.compare_kind {
            CompareKind::Equal => SearchCompare::Equal,
            CompareKind::NotEqual => SearchCompare::NotEqual,
            CompareKind::Less => SearchCompare::Less,
            CompareKind::Greater => SearchCompare::Greater,
            CompareKind::Changed => SearchCompare::Changed,
            CompareKind::Unchanged => SearchCompare::Unchanged,
            CompareKind::Increased => SearchCompare::Increased,
            CompareKind::Decreased => SearchCompare::Decreased,
            CompareKind::DifferentBy => {
                let d = self.diff_by.as_str();
                let (lo, hi) = trim_bounds(d);
                match parse_i64_in(d, lo, hi) {
                    Some(v) => SearchCompare::DifferentBy(v),
                    None => {
                        return None;
                    },
                }
            },
        };
        let source = if self.compare_kind.takes_value() && self.use_specific {
            match parse_typed_value(self.specific_value.as_str(), hex) {
                Some(v) => SearchSource::SpecificValue(v),
                None => {
                    return None;
                },
            }
        } else {
            SearchSource::PreviousSnapshot
        };
        Some((compare, source))
    }
}

/// The low `n` bytes of `raw`.
pub open spec fn low_bytes(raw: u32, size: SearchSize) -> u32 {
    match size {
        SearchSize::U8 => raw & 0xff,
        SearchSize::U16 => raw & 0xffff,
        SearchSize::U32 => raw,
    }
}

/// A candidate's value as the results list shows it: `0x`-prefixed hex at
/// the width's digits, the signed reading, or the unsigned value.
pub open spec fn search_value_text(raw: u32, size: SearchSize, signed: bool, hex: bool) -> Seq<char> {
    if hex {
        "0x"@ + crate::fmt::hex(low_bytes(raw, size) as nat, 2 * search_size_len(size))
    } else if signed {
        dec_signed(search_value(raw, true, (8 * search_size_len(size)) as u32))
    } else {
        dec(low_bytes(raw, size) as nat)
    }
}

/// Format a raw little-endian value per the search's size, sign and hex
/// settings.
pub fn format_value(raw: u32, size: SearchSize, signed: bool, hex: bool) -> (s: String)
    ensures
        s@ == search_value_text(raw, size, signed, hex),
{
    let mut s = String::new();
    let low: u32 = match size {
        SearchSize::U8 => raw & 0xFF,
        SearchSize::U16 => raw & 0xFFFF,
        SearchSize::U32 => raw,
    };
    if hex {
        push_str(&mut s, "0x");
        push_hex(&mut s, low as u64, size.byte_len() * 2);
    } else if signed {
        let bits: u32 = (size.byte_len() * 8) as u32;
        let v = search_value_exec(raw, true, bits);
        push_dec_signed(&mut s, v);
    } else {
        push_dec(&mut s, low as u64);
    }
    assert(s@ =~= search_value_text(raw, size, signed, hex));
    s
}

} // verus!
