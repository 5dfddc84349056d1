//! The envelope wire format and its verified encoder and decoder.
//!
//! A frame is one object of exactly the three members `id`, `type` and
//! `payload`. The encoder emits them in that order, without whitespace:
//! `{"id":"<id>","type":"<kind>","payload":<body>}`. The decoder
//! accepts the three members in any order (a server need not keep the
//! canonical one), plus the protocol's alternate kind words, and
//! rejects everything else as a malformed envelope. The id is a quoted
//! string of unescaped printable ASCII; the kind is one of the
//! protocol's kind words; the body is embedded verbatim (or `null`
//! where the envelope carries none).

use vstd::prelude::*;

use crate::envelope::{id_byte_ok, id_ok, null_lit, wf_payload, Payload, PayloadKind, PayloadView};
use crate::json::json_value_ok;

verus! {

/// Why a frame was rejected: a required field is absent or misplaced,
/// the kind word is unknown, or the body is not one sound structured
/// value. Non-fatal to the connection; the frame is dropped.
#[derive(Clone, Copy, Debug, PartialEq, Eq, Structural)]
pub enum DecodeError {
    MalformedEnvelope,
}

pub open spec fn lit_prefix() -> Seq<u8> {
    seq![123u8, 34u8, 105u8, 100u8, 34u8, 58u8, 34u8]
}

pub open spec fn lit_mid() -> Seq<u8> {
    seq![34u8, 44u8, 34u8, 116u8, 121u8, 112u8, 101u8, 34u8, 58u8, 34u8]
}

pub open spec fn lit_pay() -> Seq<u8> {
    seq![34u8, 44u8, 34u8, 112u8, 97u8, 121u8, 108u8, 111u8, 97u8, 100u8, 34u8, 58u8]
}

pub open spec fn lit_connection_init() -> Seq<u8> {
    seq![
        99u8, 111u8, 110u8, 110u8, 101u8, 99u8, 116u8, 105u8, 111u8, 110u8, 95u8, 105u8, 110u8,
        105u8, 116u8,
    ]
}

pub open spec fn lit_subscribe() -> Seq<u8> {
    seq![115u8, 117u8, 98u8, 115u8, 99u8, 114u8, 105u8, 98u8, 101u8]
}

pub open spec fn lit_start() -> Seq<u8> {
    seq![115u8, 116u8, 97u8, 114u8, 116u8]
}

pub open spec fn lit_stop() -> Seq<u8> {
    seq![115u8, 116u8, 111u8, 112u8]
}

pub open spec fn lit_next() -> Seq<u8> {
    seq![110u8, 101u8, 120u8, 116u8]
}

pub open spec fn lit_data() -> Seq<u8> {
    seq![100u8, 97u8, 116u8, 97u8]
}

pub open spec fn lit_error() -> Seq<u8> {
    seq![101u8, 114u8, 114u8, 111u8, 114u8]
}

pub open spec fn lit_complete() -> Seq<u8> {
    seq![99u8, 111u8, 109u8, 112u8, 108u8, 101u8, 116u8, 101u8]
}

/// The canonical kind word the encoder emits.
pub open spec fn kind_str(k: PayloadKind) -> Seq<u8> {
    match k {
        PayloadKind::Init => lit_connection_init(),
        PayloadKind::Subscribe => lit_subscribe(),
        PayloadKind::Stop => lit_stop(),
        PayloadKind::Data => lit_next(),
        PayloadKind::Error => lit_error(),
        PayloadKind::Complete => lit_complete(),
    }
}

/// The kind a wire word denotes. Accepts the canonical words plus the
/// protocol's alternates (`start` for subscribe, `data` for next).
pub open spec fn kind_of_str(s: Seq<u8>) -> Option<PayloadKind> {
    if s == lit_connection_init() {
        Some(PayloadKind::Init)
    } else if s == lit_subscribe() || s == lit_start() {
        Some(PayloadKind::Subscribe)
    } else if s == lit_stop() {
        Some(PayloadKind::Stop)
    } else if s == lit_next() || s == lit_data() {
        Some(PayloadKind::Data)
    } else if s == lit_error() {
        Some(PayloadKind::Error)
    } else if s == lit_complete() {
        Some(PayloadKind::Complete)
    } else {
        None
    }
}

/// The bytes standing in the payload position: the body verbatim, or
/// the null literal where the envelope carries none.
pub open spec fn body_repr(b: Option<Seq<u8>>) -> Seq<u8> {
    match b {
        Some(x) => x,
        None => null_lit(),
    }
}

/// The frame the encoder produces for an envelope.
pub open spec fn encode_spec(p: PayloadView) -> Seq<u8> {
    lit_prefix() + p.id + lit_mid() + kind_str(p.kind) + lit_pay() + body_repr(p.body) + seq![
        125u8,
    ]
}

/// Index of the first occurrence of `b` in `s` at or after `from`, or
/// `s.len()` where there is none.
pub open spec fn find_byte(s: Seq<u8>, from: int, b: u8) -> int
    decreases s.len() - from,
{
    if from < 0 || from >= s.len() {
        s.len() as int
    } else if s[from] == b {
        from
    } else {
        find_byte(s, from + 1, b)
    }
}

pub open spec fn lit_key_id() -> Seq<u8> {
    seq![105u8, 100u8]
}

pub open spec fn lit_key_type() -> Seq<u8> {
    seq![116u8, 121u8, 112u8, 101u8]
}

pub open spec fn lit_key_payload() -> Seq<u8> {
    seq![112u8, 97u8, 121u8, 108u8, 111u8, 97u8, 100u8]
}

/// End of the raw value starting at `i` under scanner state `st`: the
/// first position whose byte is a comma or a closing brace while the
/// scanner stands at top level; `None` where the text is unsound or
/// runs out first.
pub open spec fn vend(s: Seq<u8>, i: int, st: crate::json::ScanSt) -> Option<int>
    decreases s.len() - i,
{
    if i < 0 || i >= s.len() {
        None
    } else if st.depth == 0 && !st.in_str && !st.esc && (s[i] == 44 || s[i] == 125) {
        Some(i)
    } else {
        match crate::json::scan_step(st, s[i]) {
            None => None,
            Some(st2) => vend(s, i + 1, st2),
        }
    }
}

/// One member `"key":value` starting at `i`: its key and the range of
/// its raw value, which runs to the next top-level comma or closing
/// brace.
pub open spec fn member_at(s: Seq<u8>, i: int) -> Option<(Seq<u8>, int, int)> {
    if i < 0 || i >= s.len() || s[i] != 34 {
        None
    } else {
        let kq = find_byte(s, i + 1, 34);
        if kq + 1 >= s.len() || s[kq + 1] != 58 {
            None
        } else {
            let vs = kq + 2;
            match vend(s, vs, crate::json::scan_init()) {
                None => None,
                Some(ve) => if ve == vs {
                    None
                } else {
                    Some((s.subrange(i + 1, kq), vs, ve))
                },
            }
        }
    }
}

/// The raw-value range of the member carrying key `k`, among the three
/// members of a frame.
pub open spec fn pick(
    k: Seq<u8>,
    m1: (Seq<u8>, int, int),
    m2: (Seq<u8>, int, int),
    m3: (Seq<u8>, int, int),
) -> Option<(int, int)> {
    if m1.0 == k {
        Some((m1.1, m1.2))
    } else if m2.0 == k {
        Some((m2.1, m2.2))
    } else if m3.0 == k {
        Some((m3.1, m3.2))
    } else {
        None
    }
}

/// The inner text of a quoted string value, or `None` where the value
/// is not one.
pub open spec fn quoted(s: Seq<u8>, vs: int, ve: int) -> Option<Seq<u8>> {
    if ve - vs >= 2 && s[vs] == 34 && s[ve - 1] == 34 {
        Some(s.subrange(vs + 1, ve - 1))
    } else {
        None
    }
}

/// The envelope the three members denote: one member per required key
/// (`id` and `type` quoted strings, `payload` any sound value), in any
/// order. With three members, all three keys present means each occurs
/// exactly once.
pub open spec fn decode_fields(
    s: Seq<u8>,
    m1: (Seq<u8>, int, int),
    m2: (Seq<u8>, int, int),
    m3: (Seq<u8>, int, int),
) -> Option<PayloadView> {
    match pick(lit_key_id(), m1, m2, m3) {
        None => None,
        Some(iv) => match pick(lit_key_type(), m1, m2, m3) {
            None => None,
            Some(tv) => match pick(lit_key_payload(), m1, m2, m3) {
                None => None,
                Some(bv) => match quoted(s, iv.0, iv.1) {
                    None => None,
                    Some(idb) => match quoted(s, tv.0, tv.1) {
                        None => None,
                        Some(kwb) => if !id_ok(idb) {
                            None
                        } else {
                            match kind_of_str(kwb) {
                                None => None,
                                Some(k) => {
                                    let body = s.subrange(bv.0, bv.1);
                                    if body == null_lit() {
                                        Some(PayloadView { id: idb, kind: k, body: None })
                                    } else if json_value_ok(body) {
                                        Some(PayloadView { id: idb, kind: k, body: Some(body) })
                                    } else {
                                        None
                                    }
                                },
                            }
                        },
                    },
                },
            },
        },
    }
}

/// The envelope a frame denotes, or `None` where the frame is
/// malformed: an object of exactly the three members `id`, `type` and
/// `payload`, in any order, with nothing before or after.
pub open spec fn decode_spec(s: Seq<u8>) -> Option<PayloadView> {
    let n = s.len() as int;
    if n < 2 || s[0] != 123 {
        None
    } else {
        match member_at(s, 1) {
            None => None,
            Some(m1) => if s[m1.2] != 44 {
                None
            } else {
                match member_at(s, m1.2 + 1) {
                    None => None,
                    Some(m2) => if s[m2.2] != 44 {
                        None
                    } else {
                        match member_at(s, m2.2 + 1) {
                            None => None,
                            Some(m3) => if m3.2 != n - 1 || s[n - 1] != 125 {
                                None
                            } else {
                                decode_fields(s, m1, m2, m3)
                            },
                        }
                    },
                }
            },
        }
    }
}

fn prefix_bytes() -> (r: Vec<u8>)
    ensures
        r@ == lit_prefix(),
{
    let mut v: Vec<u8> = Vec::new();
    v.push(123);
    v.push(34);
    v.push(105);
    v.push(100);
    v.push(34);
    v.push(58);
    v.push(34);
    proof {
        assert(v@ =~= lit_prefix());
    }
    v
}

fn mid_bytes() -> (r: Vec<u8>)
    ensures
        r@ == lit_mid(),
{
    let mut v: Vec<u8> = Vec::new();
    v.push(34);
    v.push(44);
    v.push(34);
    v.push(116);
    v.push(121);
    v.push(112);
    v.push(101);
    v.push(34);
    v.push(58);
    v.push(34);
    proof {
        assert(v@ =~= lit_mid());
    }
    v
}

fn pay_bytes() -> (r: Vec<u8>)
    ensures
        r@ == lit_pay(),
{
    let mut v: Vec<u8> = Vec::new();
    v.push(34);
    v.push(44);
    v.push(34);
    v.push(112);
    v.push(97);
    v.push(121);
    v.push(108);
    v.push(111);
    v.push(97);
    v.push(100);
    v.push(34);
    v.push(58);
    proof {
        assert(v@ =~= lit_pay());
    }
    v
}

fn null_bytes() -> (r: Vec<u8>)
    ensures
        r@ == null_lit(),
{
    let mut v: Vec<u8> = Vec::new();
    v.push(110);
    v.push(117);
    v.push(108);
    v.push(108);
    proof {
        assert(v@ =~= null_lit());
    }
    v
}

fn connection_init_bytes() -> (r: Vec<u8>)
    ensures
        r@ == lit_connection_init(),
{
    let mut v: Vec<u8> = Vec::new();
    v.push(99);
    v.push(111);
    v.push(110);
    v.push(110);
    v.push(101);
    v.push(99);
    v.push(116);
    v.push(105);
    v.push(111);
    v.push(110);
    v.push(95);
    v.push(105);
    v.push(110);
    v.push(105);
    v.push(116);
    proof {
        assert(v@ =~= lit_connection_init());
    }
    v
}

fn subscribe_bytes() -> (r: Vec<u8>)
    ensures
        r@ == lit_subscribe(),
{
    let mut v: Vec<u8> = Vec::new();
    v.push(115);
    v.push(117);
    v.push(98);
    v.push(115);
    v.push(99);
    v.push(114);
    v.push(105);
    v.push(98);
    v.push(101);
    proof {
        assert(v@ =~= lit_subscribe());
    }
    v
}

fn start_bytes() -> (r: Vec<u8>)
    ensures
        r@ == lit_start(),
{
    let mut v: Vec<u8> = Vec::new();
    v.push(115);
    v.push(116);
    v.push(97);
    v.push(114);
    v.push(116);
    proof {
        assert(v@ =~= lit_start());
    }
    v
}

fn stop_bytes() -> (r: Vec<u8>)
    ensures
        r@ == lit_stop(),
{
    let mut v: Vec<u8> = Vec::new();
    v.push(115);
    v.push(116);
    v.push(111);
    v.push(112);
    proof {
        assert(v@ =~= lit_stop());
    }
    v
}

fn next_bytes() -> (r: Vec<u8>)
    ensures
        r@ == lit_next(),
{
    let mut v: Vec<u8> = Vec::new();
    v.push(110);
    v.push(101);
    v.push(120);
    v.push(116);
    proof {
        assert(v@ =~= lit_next());
    }
    v
}

fn data_bytes() -> (r: Vec<u8>)
    ensures
        r@ == lit_data(),
{
    let mut v: Vec<u8> = Vec::new();
    v.push(100);
    v.push(97);
    v.push(116);
    v.push(97);
    proof {
        assert(v@ =~= lit_data());
    }
    v
}

fn error_bytes() -> (r: Vec<u8>)
    ensures
        r@ == lit_error(),
{
    let mut v: Vec<u8> = Vec::new();
    v.push(101);
    v.push(114);
    v.push(114);
    v.push(111);
    v.push(114);
    proof {
        assert(v@ =~= lit_error());
    }
    v
}

fn complete_bytes() -> (r: Vec<u8>)
    ensures
        r@ == lit_complete(),
{
    let mut v: Vec<u8> = Vec::new();
    v.push(99);
    v.push(111);
    v.push(109);
    v.push(112);
    v.push(108);
    v.push(101);
    v.push(116);
    v.push(101);
    proof {
        assert(v@ =~= lit_complete());
    }
    v
}

fn kind_str_bytes(k: PayloadKind) -> (r: Vec<u8>)
    ensures
        r@ == kind_str(k),
{
    match k {
        PayloadKind::Init => connection_init_bytes(),
        PayloadKind::Subscribe => subscribe_bytes(),
        PayloadKind::Stop => stop_bytes(),
        PayloadKind::Data => next_bytes(),
        PayloadKind::Error => error_bytes(),
        PayloadKind::Complete => complete_bytes(),
    }
}

fn push_all(dst: &mut Vec<u8>, src: &Vec<u8>)
    ensures
        final(dst)@ == old(dst)@ + src@,
{
    let n = src.len();
    let mut i: usize = 0;
    while i < n
        invariant
            n == src@.len(),
            i <= n,
            dst@ == old(dst)@ + src@.subrange(0, i as int),
        decreases n - i,
    {
        dst.push(src[i]);
        proof {
            assert(old(dst)@ + src@.subrange(0, i as int) + seq![src@[i as int]] =~= old(dst)@
                + src@.subrange(0, i + 1));
        }
        i = i + 1;
    }
    proof {
        assert(src@.subrange(0, n as int) =~= src@);
    }
}

/// Serialize an envelope into one wire frame.
pub fn encode(p: &Payload) -> (r: Vec<u8>)
    ensures
        r@ == encode_spec(p@),
{
    let mut out = prefix_bytes();
    push_all(&mut out, &p.id);
    let mid = mid_bytes();
    push_all(&mut out, &mid);
    let kw = kind_str_bytes(p.kind);
    push_all(&mut out, &kw);
    let pay = pay_bytes();
    push_all(&mut out, &pay);
    match &p.body {
        Some(b) => push_all(&mut out, b),
        None => {
            let nl = null_bytes();
            push_all(&mut out, &nl);
        },
    }
    out.push(125);
    proof {
        assert(out@ =~= encode_spec(p@));
    }
    out
}

/// Whether the bytes of `s` between `lo` and `hi` spell exactly `lit`.
fn range_eq(s: &Vec<u8>, lo: usize, hi: usize, lit: &Vec<u8>) -> (r: bool)
    requires
        lo <= hi <= s@.len(),
    ensures
        r == (s@.subrange(lo as int, hi as int) == lit@),
{
    if hi - lo != lit.len() {
        proof {
            assert(s@.subrange(lo as int, hi as int).len() != lit@.len());
        }
        return false;
    }
    let n = lit.len();
    let mut i: usize = 0;
    while i < n
        invariant
            lo <= hi <= s@.len(),
            n == lit@.len(),
            hi - lo == n,
            i <= n,
            forall|j: int| 0 <= j < i ==> s@[lo + j] == lit@[j],
        decreases n - i,
    {
        if s[lo + i] != lit[i] {
            proof {
                assert(s@.subrange(lo as int, hi as int)[i as int] != lit@[i as int]);
            }
            return false;
        }
        i = i + 1;
    }
    proof {
        assert(s@.subrange(lo as int, hi as int) =~= lit@);
    }
    true
}

pub(crate) fn copy_range(s: &Vec<u8>, lo: usize, hi: usize) -> (r: Vec<u8>)
    requires
        lo <= hi <= s@.len(),
    ensures
        r@ == s@.subrange(lo as int, hi as int),
{
    let mut out: Vec<u8> = Vec::new();
    let mut i: usize = lo;
    while i < hi
        invariant
            lo <= i <= hi <= s@.len(),
            out@ == s@.subrange(lo as int, i as int),
        decreases hi - i,
    {
        out.push(s[i]);
        proof {
            assert(s@.subrange(lo as int, i as int).push(s@[i as int]) =~= s@.subrange(
                lo as int,
                i + 1,
            ));
        }
        i = i + 1;
    }
    out
}

/// Index of the first quote byte at or after `from`, or the length
/// where there is none.
fn find_quote(s: &Vec<u8>, from: usize) -> (r: usize)
    requires
        from <= s@.len(),
    ensures
        r == find_byte(s@, from as int, 34),
        from <= r <= s@.len(),
        r < s@.len() ==> s@[r as int] == 34,
    decreases s@.len() - from,
{
    let n = s.len();
    let mut i: usize = from;
    while i < n
        invariant
            from <= i <= n,
            n == s@.len(),
            find_byte(s@, from as int, 34) == find_byte(s@, i as int, 34),
        decreases n - i,
    {
        if s[i] == 34 {
            return i;
        }
        i = i + 1;
    }
    n
}

/// Whether every byte of `s` between `lo` and `hi` may stand in an id.
fn id_range_ok(s: &Vec<u8>, lo: usize, hi: usize) -> (r: bool)
    requires
        lo <= hi <= s@.len(),
    ensures
        r == id_ok(s@.subrange(lo as int, hi as int)),
{
    if lo == hi {
        return false;
    }
    let mut i: usize = lo;
    while i < hi
        invariant
            lo <= i <= hi <= s@.len(),
            forall|j: int| lo <= j < i ==> id_byte_ok(#[trigger] s@[j]),
        decreases hi - i,
    {
        let b = s[i];
        if b < 32 || b > 126 || b == 34 || b == 92 {
            proof {
                assert(!id_byte_ok(s@.subrange(lo as int, hi as int)[i - lo]));
            }
            return false;
        }
        i = i + 1;
    }
    proof {
        assert forall|j: int| 0 <= j < hi - lo implies id_byte_ok(
            #[trigger] s@.subrange(lo as int, hi as int)[j],
        ) by {
            assert(s@.subrange(lo as int, hi as int)[j] == s@[lo + j]);
        }
    }
    true
}

fn id_key_bytes() -> (r: Vec<u8>)
    ensures
        r@ == lit_key_id(),
{
    let mut v: Vec<u8> = Vec::new();
    v.push(105);
    v.push(100);
    proof {
        assert(v@ =~= lit_key_id());
    }
    v
}

fn type_key_bytes() -> (r: Vec<u8>)
    ensures
        r@ == lit_key_type(),
{
    let mut v: Vec<u8> = Vec::new();
    v.push(116);
    v.push(121);
    v.push(112);
    v.push(101);
    proof {
        assert(v@ =~= lit_key_type());
    }
    v
}

fn payload_key_bytes() -> (r: Vec<u8>)
    ensures
        r@ == lit_key_payload(),
{
    let mut v: Vec<u8> = Vec::new();
    v.push(112);
    v.push(97);
    v.push(121);
    v.push(108);
    v.push(111);
    v.push(97);
    v.push(100);
    proof {
        assert(v@ =~= lit_key_payload());
    }
    v
}

/// Executable form of `vend` from the initial scanner state.
fn value_end(s: &Vec<u8>, from: usize) -> (r: Option<usize>)
    requires
        from <= s@.len(),
    ensures
        match r {
            Some(j) => vend(s@, from as int, crate::json::scan_init()) == Some(j as int) && from
                <= j < s@.len(),
            None => vend(s@, from as int, crate::json::scan_init()) == None::<int>,
        },
{
    let n = s.len();
    let mut depth: usize = 0;
    let mut in_str: bool = false;
    let mut esc: bool = false;
    let mut i: usize = from;
    while i < n
        invariant
            from <= i <= n,
            n == s@.len(),
            depth <= i,
            !in_str ==> !esc,
            vend(s@, from as int, crate::json::scan_init()) == vend(
                s@,
                i as int,
                crate::json::ScanSt { depth: depth as int, in_str: in_str, esc: esc },
            ),
        decreases n - i,
    {
        let ghost st0 = crate::json::ScanSt { depth: depth as int, in_str: in_str, esc: esc };
        let b = s[i];
        if depth == 0 && !in_str && !esc && (b == 44 || b == 125) {
            return Some(i);
        }
        if in_str {
            if esc {
                esc = false;
            } else if b == 92 {
                esc = true;
            } else if b == 34 {
                in_str = false;
            } else if b < 32 {
                return None;
            }
        } else {
            if b == 34 {
                in_str = true;
            } else if b == 123 || b == 91 {
                depth = depth + 1;
            } else if b == 125 || b == 93 {
                if depth == 0 {
                    return None;
                }
                depth = depth - 1;
            } else if b == 44 && depth == 0 {
                return None;
            }
        }
        proof {
            assert(crate::json::scan_step(st0, b) == Some(
                crate::json::ScanSt { depth: depth as int, in_str: in_str, esc: esc },
            ));
            assert(vend(s@, i as int, st0) == vend(
                s@,
                i + 1,
                crate::json::ScanSt { depth: depth as int, in_str: in_str, esc: esc },
            ));
        }
        i = i + 1;
    }
    None
}

/// Executable form of `member_at`: the key range and value range of
/// one member, with the bounds the caller indexes by.
fn parse_member(s: &Vec<u8>, i: usize) -> (r: Option<(usize, usize, usize, usize)>)
    requires
        i <= s@.len(),
    ensures
        match r {
            Some(m) => member_at(s@, i as int) == Some(
                (s@.subrange(m.0 as int, m.1 as int), m.2 as int, m.3 as int),
            ) && i < m.0 && m.0 <= m.1 && m.1 + 2 <= m.2 && m.2 < m.3 && m.3 < s@.len(),
            None => member_at(s@, i as int) == None::<(Seq<u8>, int, int)>,
        },
{
    let n = s.len();
    if i >= n || s[i] != 34 {
        return None;
    }
    let kq = find_quote(s, i + 1);
    if kq >= n || kq + 1 >= n || s[kq + 1] != 58 {
        return None;
    }
    let vs = kq + 2;
    match value_end(s, vs) {
        None => None,
        Some(ve) => {
            if ve == vs {
                None
            } else {
                Some((i + 1, kq, vs, ve))
            }
        },
    }
}

/// Executable form of `pick` over parsed members.
fn pick_range(
    s: &Vec<u8>,
    m1: (usize, usize, usize, usize),
    m2: (usize, usize, usize, usize),
    m3: (usize, usize, usize, usize),
    k: &Vec<u8>,
) -> (r: Option<(usize, usize)>)
    requires
        m1.0 <= m1.1 <= s@.len(),
        m2.0 <= m2.1 <= s@.len(),
        m3.0 <= m3.1 <= s@.len(),
    ensures
        ({
            let t1 = (s@.subrange(m1.0 as int, m1.1 as int), m1.2 as int, m1.3 as int);
            let t2 = (s@.subrange(m2.0 as int, m2.1 as int), m2.2 as int, m2.3 as int);
            let t3 = (s@.subrange(m3.0 as int, m3.1 as int), m3.2 as int, m3.3 as int);
            match r {
                Some(x) => pick(k@, t1, t2, t3) == Some((x.0 as int, x.1 as int)) && (x
                    == (m1.2, m1.3) || x == (m2.2, m2.3) || x == (m3.2, m3.3)),
                None => pick(k@, t1, t2, t3) == None::<(int, int)>,
            }
        }),
{
    if range_eq(s, m1.0, m1.1, k) {
        Some((m1.2, m1.3))
    } else if range_eq(s, m2.0, m2.1, k) {
        Some((m2.2, m2.3))
    } else if range_eq(s, m3.0, m3.1, k) {
        Some((m3.2, m3.3))
    } else {
        None
    }
}

/// Parse one wire frame into an envelope, or reject it as malformed.
/// Every accepted envelope is well-formed, and acceptance is exactly
/// membership in the wire grammar (`decode_spec`).
pub fn decode(s: &Vec<u8>) -> (r: Result<Payload, DecodeError>)
    ensures
        match r {
            Ok(p) => decode_spec(s@) == Some(p@) && wf_payload(p@),
            Err(e) => decode_spec(s@) == None::<PayloadView> && e == DecodeError::MalformedEnvelope,
        },
{
    let n = s.len();
    if n < 2 || s[0] != 123 {
        return Err(DecodeError::MalformedEnvelope);
    }
    let m1 = match parse_member(s, 1) {
        None => {
            return Err(DecodeError::MalformedEnvelope);
        },
        Some(m) => m,
    };
    if s[m1.3] != 44 {
        return Err(DecodeError::MalformedEnvelope);
    }
    let m2 = match parse_member(s, m1.3 + 1) {
        None => {
            return Err(DecodeError::MalformedEnvelope);
        },
        Some(m) => m,
    };
    if s[m2.3] != 44 {
        return Err(DecodeError::MalformedEnvelope);
    }
    let m3 = match parse_member(s, m2.3 + 1) {
        None => {
            return Err(DecodeError::MalformedEnvelope);
        },
        Some(m) => m,
    };
    if m3.3 != n - 1 || s[n - 1] != 125 {
        return Err(DecodeError::MalformedEnvelope);
    }
    let kid = id_key_bytes();
    let iv = match pick_range(s, m1, m2, m3, &kid) {
        None => {
            return Err(DecodeError::MalformedEnvelope);
        },
        Some(x) => x,
    };
    let kty = type_key_bytes();
    let tv = match pick_range(s, m1, m2, m3, &kty) {
        None => {
            return Err(DecodeError::MalformedEnvelope);
        },
        Some(x) => x,
    };
    let kpl = payload_key_bytes();
    let bv = match pick_range(s, m1, m2, m3, &kpl) {
        None => {
            return Err(DecodeError::MalformedEnvelope);
        },
        Some(x) => x,
    };
    if iv.1 - iv.0 < 2 || s[iv.0] != 34 || s[iv.1 - 1] != 34 {
        return Err(DecodeError::MalformedEnvelope);
    }
    if tv.1 - tv.0 < 2 || s[tv.0] != 34 || s[tv.1 - 1] != 34 {
        return Err(DecodeError::MalformedEnvelope);
    }
    if !id_range_ok(s, iv.0 + 1, iv.1 - 1) {
        return Err(DecodeError::MalformedEnvelope);
    }
    let k: PayloadKind;
    let ci = connection_init_bytes();
    let sub = subscribe_bytes();
    let sta = start_bytes();
    let sto = stop_bytes();
    let nx = next_bytes();
    let da = data_bytes();
    let er = error_bytes();
    let co = complete_bytes();
    let klo = tv.0 + 1;
    let khi = tv.1 - 1;
    if range_eq(s, klo, khi, &ci) {
        k = PayloadKind::Init;
    } else if range_eq(s, klo, khi, &sub) || range_eq(s, klo, khi, &sta) {
        k = PayloadKind::Subscribe;
    } else if range_eq(s, klo, khi, &sto) {
        k = PayloadKind::Stop;
    } else if range_eq(s, klo, khi, &nx) || range_eq(s, klo, khi, &da) {
        k = PayloadKind::Data;
    } else if range_eq(s, klo, khi, &er) {
        k = PayloadKind::Error;
    } else if range_eq(s, klo, khi, &co) {
        k = PayloadKind::Complete;
    } else {
        return Err(DecodeError::MalformedEnvelope);
    }
    let id = copy_range(s, iv.0 + 1, iv.1 - 1);
    let body = copy_range(s, bv.0, bv.1);
    let nl = null_bytes();
    if range_eq(s, bv.0, bv.1, &nl) {
        return Ok(Payload { id, kind: k, body: None });
    }
    if !crate::json::check_json_value(&body) {
        return Err(DecodeError::MalformedEnvelope);
    }
    Ok(Payload { id, kind: k, body: Some(body) })
}

proof fn lemma_find_byte_hit(s: Seq<u8>, from: int, k: int, b: u8)
    requires
        0 <= from <= k < s.len(),
        s[k] == b,
        forall|j: int| from <= j < k ==> s[j] != b,
    ensures
        find_byte(s, from, b) == k,
    decreases k - from,
{
    if from < k {
        lemma_find_byte_hit(s, from + 1, k, b);
    }
}

/// Every byte of a kind word is unescaped printable ASCII (a letter
/// or an underscore), so a quoted kind word scans as one string.
proof fn lemma_kind_word_bytes(k: PayloadKind)
    ensures
        forall|i: int|
            0 <= i < kind_str(k).len() ==> 32 <= #[trigger] kind_str(k)[i] <= 126 && kind_str(
                k,
            )[i] != 34 && kind_str(k)[i] != 92,
{
}

/// Reading back the canonical kind word yields the kind it encodes.
proof fn lemma_kind_word_round_trip(k: PayloadKind)
    ensures
        kind_of_str(kind_str(k)) == Some(k),
{
}

/// Scanning a quoted string of unescaped printable bytes stands inside
/// the string until its closing quote.
proof fn lemma_scan_quoted_prefix(qv: Seq<u8>, j: int)
    requires
        qv.len() >= 2,
        qv[0] == 34,
        forall|t: int| 1 <= t < qv.len() - 1 ==> 32 <= #[trigger] qv[t] <= 126 && qv[t] != 34
            && qv[t] != 92,
        1 <= j <= qv.len() - 1,
    ensures
        crate::json::scan(qv, j) == Some(
            crate::json::ScanSt { depth: 0, in_str: true, esc: false },
        ),
    decreases j,
{
    if j > 1 {
        lemma_scan_quoted_prefix(qv, j - 1);
    } else {
        reveal_with_fuel(crate::json::scan, 2);
    }
}

/// A quoted string of unescaped printable bytes scans to the closed,
/// balanced end state.
proof fn lemma_scan_quoted(qv: Seq<u8>)
    requires
        qv.len() >= 2,
        qv[0] == 34,
        qv[qv.len() - 1] == 34,
        forall|t: int| 1 <= t < qv.len() - 1 ==> 32 <= #[trigger] qv[t] <= 126 && qv[t] != 34
            && qv[t] != 92,
    ensures
        crate::json::scan(qv, qv.len() as int) == Some(crate::json::scan_init()),
{
    lemma_scan_quoted_prefix(qv, qv.len() - 1);
}

/// Where a value's text scans cleanly to the balanced end state and a
/// top-level comma or closing brace follows it, the value scanner
/// stops exactly at that terminator.
proof fn lemma_vend_scanned(s: Seq<u8>, vs: int, j: int, body: Seq<u8>, st: crate::json::ScanSt)
    requires
        0 <= vs,
        0 <= j <= body.len(),
        vs + body.len() < s.len(),
        forall|t: int| 0 <= t < body.len() ==> s[vs + t] == #[trigger] body[t],
        crate::json::scan(body, body.len() as int) == Some(crate::json::scan_init()),
        crate::json::scan(body, j) == Some(st),
        s[vs + body.len()] == 44 || s[vs + body.len()] == 125,
    ensures
        vend(s, vs + j, st) == Some(vs + body.len()),
    decreases body.len() - j,
{
    if j == body.len() {
        // st is the balanced end state and the next byte terminates.
    } else {
        let b = body[j];
        if crate::json::scan(body, j + 1) == None::<crate::json::ScanSt> {
            crate::json::lemma_scan_fail_sticky(body, j + 1, body.len() as int);
            assert(false);
        }
        // An early terminator is impossible: a top-level comma or
        // closing brace inside the value would fail the scan.
        if st.depth == 0 && !st.in_str && !st.esc && (b == 44 || b == 125) {
            assert(crate::json::scan_step(st, b) == None::<crate::json::ScanSt>);
            assert(false);
        }
        match crate::json::scan_step(st, b) {
            None => {
                assert(false);
            },
            Some(st2) => {
                lemma_vend_scanned(s, vs, j + 1, body, st2);
            },
        }
    }
}

/// Round trip: decoding the frame an envelope encodes to yields that
/// envelope back, for every well-formed envelope.
#[verifier::rlimit(100)]
pub proof fn lemma_decode_encode(p: PayloadView)
    requires
        wf_payload(p),
    ensures
        decode_spec(encode_spec(p)) == Some(p),
{
    let s = encode_spec(p);
    let kw = kind_str(p.kind);
    let body = body_repr(p.body);
    let l1 = p.id.len() as int;
    let l2 = kw.len() as int;
    let lb = body.len() as int;
    let n = s.len() as int;
    let o = 7 + l1;
    let q = o + 10 + l2;
    assert(n == q + 13 + lb);
    assert(lb > 0);
    lemma_kind_word_bytes(p.kind);
    lemma_kind_word_round_trip(p.kind);

    // Member one: "id" with the quoted id as its value.
    assert(s[0] == 123 && s[1] == 34 && s[2] == 105 && s[3] == 100 && s[4] == 34 && s[5] == 58);
    lemma_find_byte_hit(s, 2, 4, 34);
    let qid = seq![34u8] + p.id + seq![34u8];
    assert forall|t: int| 0 <= t < qid.len() implies s[6 + t] == #[trigger] qid[t] by {
        if t == 0 {
            assert(s[6] == 34);
        } else if t == qid.len() - 1 {
            assert(s[o] == 34);
        } else {
            assert(s[6 + t] == p.id[t - 1]);
        }
    }
    lemma_scan_quoted(qid);
    assert(s[o + 1] == 44);
    assert(crate::json::scan(qid, 0) == Some(crate::json::scan_init()));
    lemma_vend_scanned(s, 6, 0, qid, crate::json::scan_init());
    assert(s.subrange(2, 4) =~= lit_key_id());
    assert(member_at(s, 1) == Some((lit_key_id(), 6int, o + 1)));

    // Member two: "type" with the quoted kind word as its value.
    assert(s[o + 2] == 34 && s[o + 3] == 116 && s[o + 4] == 121 && s[o + 5] == 112 && s[o + 6]
        == 101 && s[o + 7] == 34 && s[o + 8] == 58);
    lemma_find_byte_hit(s, o + 3, o + 7, 34);
    let qkw = seq![34u8] + kw + seq![34u8];
    assert forall|t: int| 0 <= t < qkw.len() implies s[o + 9 + t] == #[trigger] qkw[t] by {
        if t == 0 {
            assert(s[o + 9] == 34);
        } else if t == qkw.len() - 1 {
            assert(s[q] == 34);
        } else {
            assert(s[o + 9 + t] == kw[t - 1]);
        }
    }
    lemma_scan_quoted(qkw);
    assert(s[q + 1] == 44);
    lemma_vend_scanned(s, o + 9, 0, qkw, crate::json::scan_init());
    assert(s.subrange(o + 3, o + 7) =~= lit_key_type());
    assert(member_at(s, o + 2) == Some((lit_key_type(), o + 9, q + 1)));

    // Member three: "payload" with the body verbatim as its value.
    assert(s[q + 2] == 34 && s[q + 3] == 112 && s[q + 4] == 97 && s[q + 5] == 121 && s[q + 6]
        == 108 && s[q + 7] == 111 && s[q + 8] == 97 && s[q + 9] == 100 && s[q + 10] == 34 && s[q
        + 11] == 58);
    lemma_find_byte_hit(s, q + 3, q + 10, 34);
    assert forall|t: int| 0 <= t < body.len() implies s[q + 12 + t] == #[trigger] body[t] by {}
    match p.body {
        Some(b) => {
            assert(json_value_ok(body));
        },
        None => {
            assert(body == null_lit());
            assert(crate::json::scan(null_lit(), 4) == Some(crate::json::scan_init())) by {
                reveal_with_fuel(crate::json::scan, 5);
            }
        },
    }
    assert(s[n - 1] == 125);
    lemma_vend_scanned(s, q + 12, 0, body, crate::json::scan_init());
    assert(s.subrange(q + 3, q + 10) =~= lit_key_payload());
    assert(member_at(s, q + 2) == Some((lit_key_payload(), q + 12, n - 1)));

    // Assembly: the three keys are pairwise distinct, the id and kind
    // words read back, the body is extracted verbatim.
    let m1 = (lit_key_id(), 6int, o + 1);
    let m2 = (lit_key_type(), o + 9, q + 1);
    let m3 = (lit_key_payload(), q + 12, n - 1);
    assert(pick(lit_key_id(), m1, m2, m3) == Some((6int, o + 1)));
    assert(pick(lit_key_type(), m1, m2, m3) == Some((o + 9, q + 1)));
    assert(pick(lit_key_payload(), m1, m2, m3) == Some((q + 12, n - 1)));
    assert(quoted(s, 6, o + 1) == Some(s.subrange(7, o)));
    assert(s.subrange(7, o) =~= p.id);
    assert(quoted(s, o + 9, q + 1) == Some(s.subrange(o + 10, q)));
    assert(s.subrange(o + 10, q) =~= kw);
    assert(s.subrange(q + 12, n - 1) =~= body);
    match p.body {
        Some(b) => {
            assert(body != null_lit());
        },
        None => {
            assert(body == null_lit());
        },
    }
}

} // verus!
