//! A structural soundness check for opaque bodies. The multiplexer is
//! payload-agnostic: it never interprets a body, but the wire format
//! embeds bodies verbatim, so it insists that a body is one balanced
//! structured value — braces and brackets nest correctly outside quoted
//! strings, strings close, escapes complete, no raw control byte
//! appears inside a string, and no comma stands at top level (the text
//! is one value, not a list of them). Full grammatical validation of
//! the value is deferred to the consumer of the subscription.

use vstd::prelude::*;

verus! {

/// Scanner state after some prefix of the text: current nesting depth,
/// whether the scanner stands inside a quoted string, and whether the
/// previous byte opened an escape.
pub struct ScanSt {
    pub depth: int,
    pub in_str: bool,
    pub esc: bool,
}

pub open spec fn scan_init() -> ScanSt {
    ScanSt { depth: 0, in_str: false, esc: false }
}

/// One byte of the balance scan; `None` means the text is structurally
/// unsound (overclosed nesting, a raw control byte in a string, or a
/// top-level comma splitting the text into more than one value).
pub open spec fn scan_step(st: ScanSt, b: u8) -> Option<ScanSt> {
    if st.in_str {
        if st.esc {
            Some(ScanSt { depth: st.depth, in_str: true, esc: false })
        } else if b == 92 {
            Some(ScanSt { depth: st.depth, in_str: true, esc: true })
        } else if b == 34 {
            Some(ScanSt { depth: st.depth, in_str: false, esc: false })
        } else if b < 32 {
            None
        } else {
            Some(ScanSt { depth: st.depth, in_str: true, esc: false })
        }
    } else {
        if b == 34 {
            Some(ScanSt { depth: st.depth, in_str: true, esc: false })
        } else if b == 123 || b == 91 {
            Some(ScanSt { depth: st.depth + 1, in_str: false, esc: false })
        } else if b == 125 || b == 93 {
            if st.depth <= 0 {
                None
            } else {
                Some(ScanSt { depth: st.depth - 1, in_str: false, esc: false })
            }
        } else if b == 44 && st.depth <= 0 {
            None
        } else {
            Some(ScanSt { depth: st.depth, in_str: false, esc: false })
        }
    }
}

/// Scanner state after the first `i` bytes of `s`, or `None` once any
/// prefix is unsound.
pub open spec fn scan(s: Seq<u8>, i: int) -> Option<ScanSt>
    decreases i,
{
    if i <= 0 {
        Some(scan_init())
    } else {
        match scan(s, i - 1) {
            None => None,
            Some(st) => scan_step(st, s[i - 1]),
        }
    }
}

/// A plausible first byte of a structured value: an opening brace or
/// bracket, a quote, a digit, a sign, or the start of one of the word
/// literals.
pub open spec fn value_start(b: u8) -> bool {
    b == 123 || b == 91 || b == 34 || (48 <= b <= 57) || b == 45 || b == 116 || b == 102 || b
        == 110
}

/// The body check the wire format relies on: nonempty, starts like a
/// value, and the whole text scans to a closed, balanced end state.
pub open spec fn json_value_ok(s: Seq<u8>) -> bool {
    &&& s.len() > 0
    &&& value_start(s[0])
    &&& scan(s, s.len() as int) == Some(scan_init())
}

/// Executable form of `json_value_ok`.
pub fn check_json_value(s: &Vec<u8>) -> (r: bool)
    ensures
        r == json_value_ok(s@),
{
    let n = s.len();
    if n == 0 {
        return false;
    }
    let b0 = s[0];
    let starts = b0 == 123 || b0 == 91 || b0 == 34 || (48 <= b0 && b0 <= 57) || b0 == 45 || b0
        == 116 || b0 == 102 || b0 == 110;
    if !starts {
        return false;
    }
    let mut depth: usize = 0;
    let mut in_str: bool = false;
    let mut esc: bool = false;
    let mut i: usize = 0;
    while i < n
        invariant
            n == s@.len(),
            i <= n,
            depth <= i,
            scan(s@, i as int) == Some(
                ScanSt { depth: depth as int, in_str: in_str, esc: esc },
            ),
        decreases n - i,
    {
        let b = s[i];
        if in_str {
            if esc {
                esc = false;
            } else if b == 92 {
                esc = true;
            } else if b == 34 {
                in_str = false;
            } else if b < 32 {
                proof {
                    assert(scan(s@, i + 1) == None::<ScanSt>);
                    lemma_scan_fail_sticky(s@, i + 1, n as int);
                }
                return false;
            }
        } else {
            if b == 34 {
                in_str = true;
            } else if b == 123 || b == 91 {
                depth = depth + 1;
            } else if b == 125 || b == 93 {
                if depth == 0 {
                    proof {
                        assert(scan(s@, i + 1) == None::<ScanSt>);
                        lemma_scan_fail_sticky(s@, i + 1, n as int);
                    }
                    return false;
                }
                depth = depth - 1;
            } else if b == 44 && depth == 0 {
                proof {
                    assert(scan(s@, i + 1) == None::<ScanSt>);
                    lemma_scan_fail_sticky(s@, i + 1, n as int);
                }
                return false;
            }
        }
        i = i + 1;
    }
    depth == 0 && !in_str && !esc
}

/// Once the scan fails on a prefix, it fails on the whole text.
pub proof fn lemma_scan_fail_sticky(s: Seq<u8>, i: int, j: int)
    requires
        0 <= i <= j,
        scan(s, i) == None::<ScanSt>,
    ensures
        scan(s, j) == None::<ScanSt>,
    decreases j - i,
{
    if j > i {
        lemma_scan_fail_sticky(s, i, j - 1);
    }
}

} // verus!
