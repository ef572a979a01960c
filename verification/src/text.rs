//! The textual form of the wire: one JSON document per line.
//!
//! The writer emits the canonical text of a document: no whitespace,
//! members and elements in order, strings spliced verbatim from their raw
//! escaped bytes.  The parser reads one document from a line of bytes; it
//! is defined by a mathematical parser that the executable code is proved
//! to follow exactly.

use vstd::prelude::*;
use crate::json::{Json, JsonV, view_arr, view_members, lemma_view_arr, lemma_view_members};

verus! {

/// The decimal digits of `n`, most significant first.
pub open spec fn spec_u64_dec(n: u64) -> Seq<u8>
    decreases n,
{
    if n < 10 {
        seq![(48 + n) as u8]
    } else {
        spec_u64_dec(n / 10).push((48 + n % 10) as u8)
    }
}

/// Writes `n` in decimal.
pub fn u64_to_dec(n: u64) -> (r: Vec<u8>)
    ensures
        r@ == spec_u64_dec(n),
    decreases n,
{
    if n < 10 {
        let mut out: Vec<u8> = Vec::new();
        out.push(48 + (n as u8));
        proof {
            assert(out@ =~= spec_u64_dec(n));
        }
        out
    } else {
        let mut out = u64_to_dec(n / 10);
        out.push(48 + ((n % 10) as u8));
        out
    }
}

/// The canonical text of a value.
pub open spec fn json_text(j: JsonV) -> Seq<u8>
    decreases j,
{
    match j {
        JsonV::Null => seq![110u8, 117u8, 108u8, 108u8],
        JsonV::Bool(b) => if b {
            seq![116u8, 114u8, 117u8, 101u8]
        } else {
            seq![102u8, 97u8, 108u8, 115u8, 101u8]
        },
        JsonV::Num(n) => spec_u64_dec(n),
        JsonV::NumRaw(raw) => raw,
        JsonV::Str(raw) => seq![34u8] + raw + seq![34u8],
        JsonV::Arr(items) => seq![91u8] + arr_text(items) + seq![93u8],
        JsonV::Obj(members) => seq![123u8] + members_text(members) + seq![125u8],
    }
}

/// The canonical text of comma-separated elements.
pub open spec fn arr_text(items: Seq<JsonV>) -> Seq<u8>
    decreases items,
{
    if items.len() == 0 {
        Seq::empty()
    } else if items.len() == 1 {
        proof {
            assert(decreases_to!(items => items[0]));
        }
        json_text(items[0])
    } else {
        proof {
            assert(decreases_to!(items => items[0]));
            assert(decreases_to!(items => items.subrange(1, items.len() as int)));
        }
        json_text(items[0]) + seq![44u8] + arr_text(items.skip(1))
    }
}

/// The canonical text of comma-separated members.
pub open spec fn members_text(members: Seq<(Seq<u8>, JsonV)>) -> Seq<u8>
    decreases members,
{
    if members.len() == 0 {
        Seq::empty()
    } else {
        proof {
            assert(decreases_to!(members => members[0]));
            assert(decreases_to!(members[0] => members[0].1));
            assert(decreases_to!(members => members.subrange(1, members.len() as int)));
        }
        let head = seq![34u8] + members[0].0 + seq![34u8, 58u8] + json_text(members[0].1);
        if members.len() == 1 {
            head
        } else {
            head + seq![44u8] + members_text(members.skip(1))
        }
    }
}

/// Appending one element extends the element text.
pub proof fn lemma_arr_text_snoc(items: Seq<JsonV>, x: JsonV)
    ensures
        arr_text(items.push(x)) == if items.len() == 0 {
            json_text(x)
        } else {
            arr_text(items) + seq![44u8] + json_text(x)
        },
    decreases items.len(),
{
    reveal_with_fuel(arr_text, 3);
    if items.len() == 0 {
        assert(items.push(x)[0] == x);
        assert(arr_text(items.push(x)) == json_text(x));
    } else {
        assert(items.push(x).skip(1) =~= items.skip(1).push(x));
        lemma_arr_text_snoc(items.skip(1), x);
        if items.len() == 1 {
            assert(arr_text(items.push(x)) =~= arr_text(items) + seq![44u8] + json_text(x));
        } else {
            assert(arr_text(items.push(x)) =~= arr_text(items) + seq![44u8] + json_text(x));
        }
    }
}

/// Appending one member extends the member text.
pub proof fn lemma_members_text_snoc(members: Seq<(Seq<u8>, JsonV)>, x: (Seq<u8>, JsonV))
    ensures
        members_text(members.push(x)) == if members.len() == 0 {
            seq![34u8] + x.0 + seq![34u8, 58u8] + json_text(x.1)
        } else {
            members_text(members) + seq![44u8] + seq![34u8] + x.0 + seq![34u8, 58u8]
                + json_text(x.1)
        },
    decreases members.len(),
{
    reveal_with_fuel(members_text, 3);
    if members.len() == 0 {
        assert(members.push(x)[0] == x);
    } else {
        assert(members.push(x).skip(1) =~= members.skip(1).push(x));
        lemma_members_text_snoc(members.skip(1), x);
        if members.len() == 1 {
            assert(members_text(members.push(x)) =~= members_text(members) + seq![44u8] + (
            seq![34u8] + x.0 + seq![34u8, 58u8] + json_text(x.1)));
        } else {
            assert(members_text(members.push(x)) =~= members_text(members) + seq![44u8] + (
            seq![34u8] + x.0 + seq![34u8, 58u8] + json_text(x.1)));
        }
    }
}

/// Appends the canonical text of `j` to `out`.
#[verifier::spinoff_prover]
#[verifier::rlimit(100)]
pub fn append_text(j: &Json, out: &mut Vec<u8>)
    ensures
        final(out)@ == old(out)@ + json_text(j@),
    decreases *j,
{
    broadcast use lemma_view_arr, lemma_view_members;

    match j {
        Json::Null => {
            out.push(110);
            out.push(117);
            out.push(108);
            out.push(108);
            assert(final(out)@ =~= old(out)@ + json_text(j@));
        },
        Json::Bool(b) => {
            if *b {
                out.push(116);
                out.push(114);
                out.push(117);
                out.push(101);
            } else {
                out.push(102);
                out.push(97);
                out.push(108);
                out.push(115);
                out.push(101);
            }
            assert(final(out)@ =~= old(out)@ + json_text(j@));
        },
        Json::Num(n) => {
            let digits = u64_to_dec(*n);
            append_bytes(out, &digits);
        },
        Json::NumRaw(raw) => {
            append_bytes(out, raw);
        },
        Json::Str(raw) => {
            out.push(34);
            append_bytes(out, raw);
            out.push(34);
            assert(final(out)@ =~= old(out)@ + json_text(j@));
        },
        Json::Arr(items) => {
            out.push(91);
            let ghost base = out@;
            let mut i: usize = 0;
            while i < items.len()
                invariant
                    0 <= i <= items@.len(),
                    out@ == base + arr_text(view_arr(items@).take(i as int)),
                decreases items@.len() - i,
            {
                proof {
                    assert(decreases_to!(items@ => items@[i as int]));
                    lemma_arr_text_snoc(view_arr(items@).take(i as int), view_arr(items@)[
                        i as int
                    ]);
                    assert(view_arr(items@).take(i as int).push(view_arr(items@)[i as int])
                        =~= view_arr(items@).take(i + 1));
                }
                if i > 0 {
                    out.push(44);
                }
                append_text(&items[i], out);
                proof {
                    if i > 0 {
                        assert(out@ =~= base + arr_text(view_arr(items@).take(i + 1)));
                    } else {
                        assert(arr_text(view_arr(items@).take(0))
                            =~= Seq::<u8>::empty());
                        assert(out@ =~= base + arr_text(view_arr(items@).take(i + 1)));
                    }
                }
                i += 1;
            }
            out.push(93);
            proof {
                assert(view_arr(items@).take(i as int) =~= view_arr(items@));
                assert(final(out)@ =~= old(out)@ + json_text(j@));
            }
        },
        Json::Obj(members) => {
            out.push(123);
            let ghost base = out@;
            let mut i: usize = 0;
            while i < members.len()
                invariant
                    0 <= i <= members@.len(),
                    out@ == base + members_text(view_members(members@).take(i as int)),
                decreases members@.len() - i,
            {
                proof {
                    assert(decreases_to!(members@ => members@[i as int]));
                    assert(decreases_to!(members@[i as int] => members@[i as int].1));
                    lemma_members_text_snoc(
                        view_members(members@).take(i as int),
                        view_members(members@)[i as int],
                    );
                    assert(view_members(members@).take(i as int).push(
                        view_members(members@)[i as int],
                    ) =~= view_members(members@).take(i + 1));
                }
                if i > 0 {
                    out.push(44);
                }
                out.push(34);
                append_bytes(out, &members[i].0);
                out.push(34);
                out.push(58);
                append_text(&members[i].1, out);
                proof {
                    if i > 0 {
                        assert(out@ =~= base + members_text(
                            view_members(members@).take(i + 1),
                        ));
                    } else {
                        assert(members_text(view_members(members@).take(0))
                            =~= Seq::<u8>::empty());
                        assert(out@ =~= base + members_text(
                            view_members(members@).take(i + 1),
                        ));
                    }
                }
                i += 1;
            }
            out.push(125);
            proof {
                assert(view_members(members@).take(i as int) =~= view_members(members@));
                assert(final(out)@ =~= old(out)@ + json_text(j@));
            }
        },
    }
}

/// The canonical text of a document, as one fresh buffer.
pub fn to_text(j: &Json) -> (r: Vec<u8>)
    ensures
        r@ == json_text(j@),
{
    let mut out: Vec<u8> = Vec::new();
    append_text(j, &mut out);
    proof {
        assert(out@ =~= json_text(j@));
    }
    out
}

/// Appends a byte run.
fn append_bytes(out: &mut Vec<u8>, data: &Vec<u8>)
    ensures
        final(out)@ == old(out)@ + data@,
{
    let mut i: usize = 0;
    while i < data.len()
        invariant
            0 <= i <= data@.len(),
            out@ == old(out)@ + data@.take(i as int),
        decreases data@.len() - i,
    {
        out.push(data[i]);
        assert(out@ =~= old(out)@ + data@.take(i + 1));
        i += 1;
    }
    assert(data@.take(data@.len() as int) =~= data@);
}


/// The decimal text of `n` is canonical: digits only, no leading zero
/// unless it is the single zero, and reading it back gives `n`.  With
/// this, a plain integer survives the trip through its text.
pub proof fn lemma_u64_dec_round_trip(n: u64)
    ensures
        spec_canonical_u64(spec_u64_dec(n)),
        spec_dec_val(spec_u64_dec(n)) == n,
    decreases n,
{
    reveal_with_fuel(spec_u64_dec, 2);
    reveal_with_fuel(spec_dec_val, 2);
    if n < 10 {
        assert(spec_u64_dec(n) =~= seq![(48 + n) as u8]);
        assert(spec_u64_dec(n).drop_last() =~= Seq::<u8>::empty());
    } else {
        lemma_u64_dec_round_trip(n / 10);
        let prefix = spec_u64_dec(n / 10);
        let whole = spec_u64_dec(n);
        assert(whole == prefix.push((48 + n % 10) as u8));
        assert(whole.drop_last() =~= prefix);
        assert(spec_dec_val(whole) == spec_dec_val(prefix) * 10 + (n % 10));
        assert(spec_dec_val(prefix) * 10 + n % 10 == n) by (nonlinear_arith)
            requires
                spec_dec_val(prefix) == n / 10,
        ;
        assert(prefix[0] != 48) by {
            if n / 10 < 10 {
                assert(prefix =~= seq![(48 + n / 10) as u8]);
            }
        }
        assert forall|k: int| 0 <= k < whole.len() implies is_digit(whole[k]) by {
            if k < prefix.len() {
                assert(whole[k] == prefix[k]);
            }
        }
    }
}

/// True for the four whitespace bytes of JSON.
pub open spec fn is_ws(b: u8) -> bool {
    b == 32 || b == 9 || b == 10 || b == 13
}

/// The first position at or after `i` holding no whitespace.
pub open spec fn spec_skip_ws(s: Seq<u8>, i: int) -> int
    decreases s.len() - i,
{
    if 0 <= i < s.len() && is_ws(s[i]) {
        spec_skip_ws(s, i + 1)
    } else {
        i
    }
}

/// The value of a run of decimal digits.
pub open spec fn spec_dec_val(s: Seq<u8>) -> nat
    decreases s.len(),
{
    if s.len() == 0 {
        0
    } else {
        spec_dec_val(s.drop_last()) * 10 + (s.last() - 48) as nat
    }
}

/// True for a decimal digit byte.
pub open spec fn is_digit(b: u8) -> bool {
    48 <= b <= 57
}

/// True for a byte that can continue a number literal.
pub open spec fn is_num_byte(b: u8) -> bool {
    is_digit(b) || b == 45 || b == 43 || b == 46 || b == 101 || b == 69
}

/// The end of the number literal starting at `i`.
pub open spec fn spec_scan_number(s: Seq<u8>, i: int) -> int
    decreases s.len() - i,
{
    if 0 <= i < s.len() && is_num_byte(s[i]) {
        spec_scan_number(s, i + 1)
    } else {
        i
    }
}

/// The position of the closing quote of the string content starting at
/// `i`, skipping the byte after every backslash.
pub open spec fn spec_scan_string(s: Seq<u8>, i: int) -> Option<int>
    decreases s.len() - i,
{
    if i >= s.len() {
        None
    } else if s[i] == 34 {
        Some(i)
    } else if s[i] == 92 {
        if i + 2 <= s.len() {
            spec_scan_string(s, i + 2)
        } else {
            None
        }
    } else {
        spec_scan_string(s, i + 1)
    }
}

/// Reads one value starting at `i` (after whitespace); yields the value
/// and the position after it.  `fuel` bounds the recursion and is sized by
/// the caller so that it never runs out on an input that parses.
pub open spec fn spec_parse_value(s: Seq<u8>, i: int, fuel: nat) -> Option<(JsonV, int)>
    decreases fuel,
{
    if fuel == 0 {
        None
    } else {
        let i = spec_skip_ws(s, i);
        if i >= s.len() {
            None
        } else if s[i] == 110 {
            if i + 4 <= s.len() && s.subrange(i, i + 4) =~= seq![110u8, 117u8, 108u8, 108u8] {
                Some((JsonV::Null, i + 4))
            } else {
                None
            }
        } else if s[i] == 116 {
            if i + 4 <= s.len() && s.subrange(i, i + 4) =~= seq![116u8, 114u8, 117u8, 101u8] {
                Some((JsonV::Bool(true), i + 4))
            } else {
                None
            }
        } else if s[i] == 102 {
            if i + 5 <= s.len() && s.subrange(i, i + 5) =~= seq![
                102u8,
                97u8,
                108u8,
                115u8,
                101u8,
            ] {
                Some((JsonV::Bool(false), i + 5))
            } else {
                None
            }
        } else if s[i] == 34 {
            match spec_scan_string(s, i + 1) {
                Some(end) => Some((JsonV::Str(s.subrange(i + 1, end)), end + 1)),
                None => None,
            }
        } else if s[i] == 91 {
            let j = spec_skip_ws(s, i + 1);
            if j < s.len() && s[j] == 93 {
                Some((JsonV::Arr(Seq::empty()), j + 1))
            } else {
                match spec_parse_items(s, i + 1, (fuel - 1) as nat) {
                    Some((items, end)) => Some((JsonV::Arr(items), end)),
                    None => None,
                }
            }
        } else if s[i] == 123 {
            let j = spec_skip_ws(s, i + 1);
            if j < s.len() && s[j] == 125 {
                Some((JsonV::Obj(Seq::empty()), j + 1))
            } else {
                match spec_parse_members(s, i + 1, (fuel - 1) as nat) {
                    Some((members, end)) => Some((JsonV::Obj(members), end)),
                    None => None,
                }
            }
        } else if is_digit(s[i]) || s[i] == 45 {
            let end = spec_scan_number(s, i);
            let raw = s.subrange(i, end);
            if end == i {
                None
            } else if spec_canonical_u64(raw) {
                Some((JsonV::Num(spec_dec_val(raw) as u64), end))
            } else {
                Some((JsonV::NumRaw(raw), end))
            }
        } else {
            None
        }
    }
}

/// A literal that reads back as a plain unsigned integer: all digits, no
/// leading zero unless it is the single zero, and within range.
pub open spec fn spec_canonical_u64(raw: Seq<u8>) -> bool {
    &&& raw.len() > 0
    &&& forall|k: int| 0 <= k < raw.len() ==> is_digit(raw[k])
    &&& (raw[0] != 48 || raw.len() == 1)
    &&& spec_dec_val(raw) <= u64::MAX
}

/// Reads the elements of an array, starting just after its opening
/// bracket; yields them and the position after the closing bracket.
pub open spec fn spec_parse_items(s: Seq<u8>, i: int, fuel: nat) -> Option<(Seq<JsonV>, int)>
    decreases fuel,
{
    if fuel == 0 {
        None
    } else {
        match spec_parse_value(s, i, (fuel - 1) as nat) {
            Some((v, j)) => {
                let j = spec_skip_ws(s, j);
                if j < s.len() && s[j] == 44 {
                    match spec_parse_items(s, j + 1, (fuel - 1) as nat) {
                        Some((rest, end)) => Some((seq![v] + rest, end)),
                        None => None,
                    }
                } else if j < s.len() && s[j] == 93 {
                    Some((seq![v], j + 1))
                } else {
                    None
                }
            },
            None => None,
        }
    }
}

/// Reads the members of an object, starting just after its opening brace;
/// yields them and the position after the closing brace.
pub open spec fn spec_parse_members(s: Seq<u8>, i: int, fuel: nat) -> Option<
    (Seq<(Seq<u8>, JsonV)>, int),
>
    decreases fuel,
{
    if fuel == 0 {
        None
    } else {
        let i = spec_skip_ws(s, i);
        if i < s.len() && s[i] == 34 {
            match spec_scan_string(s, i + 1) {
                Some(end) => {
                    let key = s.subrange(i + 1, end);
                    let j = spec_skip_ws(s, end + 1);
                    if j < s.len() && s[j] == 58 {
                        match spec_parse_value(s, j + 1, (fuel - 1) as nat) {
                            Some((v, k)) => {
                                let k = spec_skip_ws(s, k);
                                if k < s.len() && s[k] == 44 {
                                    match spec_parse_members(s, k + 1, (fuel - 1) as nat) {
                                        Some((rest, end2)) => Some(
                                            (seq![(key, v)] + rest, end2),
                                        ),
                                        None => None,
                                    }
                                } else if k < s.len() && s[k] == 125 {
                                    Some((seq![(key, v)], k + 1))
                                } else {
                                    None
                                }
                            },
                            None => None,
                        }
                    } else {
                        None
                    }
                },
                None => None,
            }
        } else {
            None
        }
    }
}

/// What one line of bytes parses to: one value, with nothing but
/// whitespace after it.
pub open spec fn spec_parse_json(s: Seq<u8>) -> Option<JsonV> {
    match spec_parse_value(s, 0, (2 * s.len() + 4) as nat) {
        Some((v, end)) => {
            if spec_skip_ws(s, end) == s.len() {
                Some(v)
            } else {
                None
            }
        },
        None => None,
    }
}

/// Skips whitespace.
fn skip_ws(s: &[u8], i: usize) -> (r: usize)
    requires
        s@.len() <= 1000000000,
        i <= s@.len(),
    ensures
        r == spec_skip_ws(s@, i as int),
        i <= r <= s@.len(),
{
    let mut cur = i;
    while cur < s.len() && (s[cur] == 32 || s[cur] == 9 || s[cur] == 10 || s[cur] == 13)
        invariant
            i <= cur <= s@.len(),
            spec_skip_ws(s@, i as int) == spec_skip_ws(s@, cur as int),
        decreases s@.len() - cur,
    {
        cur += 1;
    }
    cur
}

/// Scans a number literal.
fn scan_number(s: &[u8], i: usize) -> (r: usize)
    requires
        s@.len() <= 1000000000,
        i <= s@.len(),
    ensures
        r == spec_scan_number(s@, i as int),
        i <= r <= s@.len(),
{
    let mut cur = i;
    while cur < s.len() && (s[cur] == 45 || s[cur] == 43 || s[cur] == 46 || s[cur] == 101
        || s[cur] == 69 || (48 <= s[cur] && s[cur] <= 57))
        invariant
            i <= cur <= s@.len(),
            spec_scan_number(s@, i as int) == spec_scan_number(s@, cur as int),
        decreases s@.len() - cur,
    {
        cur += 1;
    }
    cur
}

/// Scans string content for its closing quote.
fn scan_string(s: &[u8], i: usize) -> (r: Option<usize>)
    requires
        s@.len() <= 1000000000,
        i <= s@.len(),
    ensures
        match r {
            Some(end) => spec_scan_string(s@, i as int) == Some(end as int) && i <= end
                < s@.len(),
            None => spec_scan_string(s@, i as int) is None,
        },
{
    let mut cur = i;
    loop
        invariant
            i <= cur <= s@.len(),
            spec_scan_string(s@, i as int) == spec_scan_string(s@, cur as int),
        decreases s@.len() - cur,
    {
        if cur >= s.len() {
            return None;
        }
        if s[cur] == 34 {
            return Some(cur);
        }
        if s[cur] == 92 {
            if cur + 2 <= s.len() {
                cur += 2;
            } else {
                return None;
            }
        } else {
            cur += 1;
        }
    }
}

/// Copies the bytes of `[from, to)`.
fn copy_range(s: &[u8], from: usize, to: usize) -> (r: Vec<u8>)
    requires
        from <= to <= s@.len(),
    ensures
        r@ == s@.subrange(from as int, to as int),
{
    let mut out: Vec<u8> = Vec::new();
    let mut i = from;
    while i < to
        invariant
            from <= i <= to,
            out@ == s@.subrange(from as int, i as int),
        decreases to - i,
    {
        out.push(s[i]);
        assert(out@ =~= s@.subrange(from as int, i + 1));
        i += 1;
    }
    out
}

/// Classifies and evaluates a scanned number literal, as
/// [`spec_canonical_u64`] and [`spec_dec_val`] describe.
fn eval_number(raw: &Vec<u8>) -> (r: Option<u64>)
    requires
        raw@.len() > 0,
    ensures
        match r {
            Some(n) => spec_canonical_u64(raw@) && n == spec_dec_val(raw@),
            None => !spec_canonical_u64(raw@),
        },
{
    if raw[0] == 48 && raw.len() != 1 {
        return None;
    }
    let mut val: u64 = 0;
    let mut over = false;
    let mut k: usize = 0;
    while k < raw.len()
        invariant
            0 <= k <= raw@.len(),
            forall|m: int| 0 <= m < k ==> is_digit(raw@[m]),
            !over ==> val == spec_dec_val(raw@.take(k as int)),
            over ==> spec_dec_val(raw@.take(k as int)) > u64::MAX,
        decreases raw@.len() - k,
    {
        let b = raw[k];
        if b < 48 || b > 57 {
            return None;
        }
        let d = (b - 48) as u64;
        proof {
            assert(raw@.take(k + 1).drop_last() =~= raw@.take(k as int));
            assert(raw@.take(k + 1).last() == raw@[k as int]);
        }
        if over {
            proof {
                assert(spec_dec_val(raw@.take(k + 1)) == spec_dec_val(raw@.take(k as int)) * 10
                    + d);
                assert(spec_dec_val(raw@.take(k as int)) * 10 >= spec_dec_val(
                    raw@.take(k as int),
                )) by (nonlinear_arith);
            }
        } else {
            if val <= (u64::MAX - d) / 10 {
                proof {
                    assert(val * 10 + d <= u64::MAX) by (nonlinear_arith)
                        requires
                            val <= (u64::MAX - d) / 10,
                            d <= 9,
                    ;
                }
                val = val * 10 + d;
            } else {
                proof {
                    assert(val * 10 + d > u64::MAX) by (nonlinear_arith)
                        requires
                            val > (u64::MAX - d) / 10,
                            d <= 9,
                    ;
                }
                over = true;
            }
        }
        k += 1;
    }
    proof {
        assert(raw@.take(raw@.len() as int) =~= raw@);
    }
    if over {
        None
    } else {
        Some(val)
    }
}

/// Reads one value, as [`spec_parse_value`] describes.
#[verifier::rlimit(100)]
fn parse_value(s: &[u8], i: usize, fuel: usize) -> (r: Option<(Json, usize)>)
    requires
        s@.len() <= 1000000000,
        i <= s@.len(),
    ensures
        match r {
            Some((v, j)) => spec_parse_value(s@, i as int, fuel as nat) == Some((v@, j as int))
                && j <= s@.len(),
            None => spec_parse_value(s@, i as int, fuel as nat) is None,
        },
    decreases fuel,
{
    if fuel == 0 {
        return None;
    }
    let i = skip_ws(s, i);
    if i >= s.len() {
        return None;
    }
    let b = s[i];
    if b == 110 {
        if i + 4 <= s.len() && s[i + 1] == 117 && s[i + 2] == 108 && s[i + 3] == 108 {
            proof {
                assert(s@.subrange(i as int, i + 4) =~= seq![110u8, 117u8, 108u8, 108u8]);
            }
            Some((Json::Null, i + 4))
        } else {
            proof {
                if i + 4 <= s@.len() {
                    assert(!(s@.subrange(i as int, i + 4) =~= seq![
                        110u8,
                        117u8,
                        108u8,
                        108u8,
                    ]));
                }
            }
            None
        }
    } else if b == 116 {
        if i + 4 <= s.len() && s[i + 1] == 114 && s[i + 2] == 117 && s[i + 3] == 101 {
            proof {
                assert(s@.subrange(i as int, i + 4) =~= seq![116u8, 114u8, 117u8, 101u8]);
            }
            Some((Json::Bool(true), i + 4))
        } else {
            proof {
                if i + 4 <= s@.len() {
                    assert(!(s@.subrange(i as int, i + 4) =~= seq![
                        116u8,
                        114u8,
                        117u8,
                        101u8,
                    ]));
                }
            }
            None
        }
    } else if b == 102 {
        if i + 5 <= s.len() && s[i + 1] == 97 && s[i + 2] == 108 && s[i + 3] == 115 && s[i + 4]
            == 101 {
            proof {
                assert(s@.subrange(i as int, i + 5) =~= seq![102u8, 97u8, 108u8, 115u8, 101u8]);
            }
            Some((Json::Bool(false), i + 5))
        } else {
            proof {
                if i + 5 <= s@.len() {
                    assert(!(s@.subrange(i as int, i + 5) =~= seq![
                        102u8,
                        97u8,
                        108u8,
                        115u8,
                        101u8,
                    ]));
                }
            }
            None
        }
    } else if b == 34 {
        match scan_string(s, i + 1) {
            Some(end) => {
                let raw = copy_range(s, i + 1, end);
                Some((Json::Str(raw), end + 1))
            },
            None => None,
        }
    } else if b == 91 {
        let j = skip_ws(s, i + 1);
        if j < s.len() && s[j] == 93 {
            let items: Vec<Json> = Vec::new();
            proof {
                assert(view_arr(items@) =~= Seq::<JsonV>::empty());
            }
            Some((Json::Arr(items), j + 1))
        } else {
            match parse_items(s, i + 1, fuel - 1) {
                Some((items, end)) => Some((Json::Arr(items), end)),
                None => None,
            }
        }
    } else if b == 123 {
        let j = skip_ws(s, i + 1);
        if j < s.len() && s[j] == 125 {
            let members: Vec<(Vec<u8>, Json)> = Vec::new();
            proof {
                assert(view_members(members@) =~= Seq::<(Seq<u8>, JsonV)>::empty());
            }
            Some((Json::Obj(members), j + 1))
        } else {
            match parse_members(s, i + 1, fuel - 1) {
                Some((members, end)) => Some((Json::Obj(members), end)),
                None => None,
            }
        }
    } else if (48 <= b && b <= 57) || b == 45 {
        let end = scan_number(s, i);
        if end == i {
            return None;
        }
        let raw = copy_range(s, i, end);
        match eval_number(&raw) {
            Some(n) => Some((Json::Num(n), end)),
            None => Some((Json::NumRaw(raw), end)),
        }
    } else {
        None
    }
}

/// Reads array elements, as [`spec_parse_items`] describes.
#[verifier::rlimit(100)]
fn parse_items(s: &[u8], i: usize, fuel: usize) -> (r: Option<(Vec<Json>, usize)>)
    requires
        s@.len() <= 1000000000,
        i <= s@.len(),
    ensures
        match r {
            Some((items, j)) => spec_parse_items(s@, i as int, fuel as nat) == Some(
                (view_arr(items@), j as int),
            ) && j <= s@.len(),
            None => spec_parse_items(s@, i as int, fuel as nat) is None,
        },
    decreases fuel,
{
    broadcast use lemma_view_arr;

    if fuel == 0 {
        return None;
    }
    let (v, j) = match parse_value(s, i, fuel - 1) {
        Some(r) => r,
        None => {
            return None;
        },
    };
    let j = skip_ws(s, j);
    if j < s.len() && s[j] == 44 {
        match parse_items(s, j + 1, fuel - 1) {
            Some((rest, end)) => {
                let ghost restv = view_arr(rest@);
                let mut items = rest;
                items.insert(0, v);
                proof {
                    rest@.insert_ensures(0, v);
                    assert(items@ =~= seq![v] + rest@);
                    assert(view_arr(items@) =~= seq![v@] + restv);
                }
                Some((items, end))
            },
            None => None,
        }
    } else if j < s.len() && s[j] == 93 {
        let mut items: Vec<Json> = Vec::new();
        items.push(v);
        proof {
            assert(view_arr(items@) =~= seq![v@]);
        }
        Some((items, j + 1))
    } else {
        None
    }
}

/// Reads object members, as [`spec_parse_members`] describes.
#[verifier::rlimit(100)]
fn parse_members(s: &[u8], i: usize, fuel: usize) -> (r: Option<(Vec<(Vec<u8>, Json)>, usize)>)
    requires
        s@.len() <= 1000000000,
        i <= s@.len(),
    ensures
        match r {
            Some((members, j)) => spec_parse_members(s@, i as int, fuel as nat) == Some(
                (view_members(members@), j as int),
            ) && j <= s@.len(),
            None => spec_parse_members(s@, i as int, fuel as nat) is None,
        },
    decreases fuel,
{
    broadcast use lemma_view_members;

    if fuel == 0 {
        return None;
    }
    let i = skip_ws(s, i);
    if !(i < s.len() && s[i] == 34) {
        return None;
    }
    let end = match scan_string(s, i + 1) {
        Some(end) => end,
        None => {
            return None;
        },
    };
    let key = copy_range(s, i + 1, end);
    let j = skip_ws(s, end + 1);
    if !(j < s.len() && s[j] == 58) {
        return None;
    }
    let (v, k) = match parse_value(s, j + 1, fuel - 1) {
        Some(r) => r,
        None => {
            return None;
        },
    };
    let k = skip_ws(s, k);
    if k < s.len() && s[k] == 44 {
        match parse_members(s, k + 1, fuel - 1) {
            Some((rest, end2)) => {
                let ghost restv = view_members(rest@);
                let mut members = rest;
                members.insert(0, (key, v));
                proof {
                    rest@.insert_ensures(0, (key, v));
                    assert(members@ =~= seq![(key, v)] + rest@);
                    assert(view_members(members@) =~= seq![(key@, v@)] + restv);
                }
                Some((members, end2))
            },
            None => None,
        }
    } else if k < s.len() && s[k] == 125 {
        let mut members: Vec<(Vec<u8>, Json)> = Vec::new();
        members.push((key, v));
        proof {
            assert(view_members(members@) =~= seq![(key@, v@)]);
        }
        Some((members, k + 1))
    } else {
        None
    }
}

/// Reads one line of bytes as a single JSON document, as
/// [`spec_parse_json`] describes: one value, with nothing but whitespace
/// around it.
pub fn parse_json(s: &[u8]) -> (r: Option<Json>)
    requires
        s@.len() <= 1000000000,
    ensures
        match r {
            Some(v) => spec_parse_json(s@) == Some(v@),
            None => spec_parse_json(s@) is None,
        },
{
    let fuel = 2 * s.len() + 4;
    match parse_value(s, 0, fuel) {
        Some((v, end)) => {
            let rest = skip_ws(s, end);
            if rest == s.len() {
                Some(v)
            } else {
                None
            }
        },
        None => None,
    }
}

/// The documents of a journal's lines, in order: a line that holds no
/// JSON document (a blank line, or a half-written trailing line) is
/// skipped rather than failing the load.
pub open spec fn spec_decode_lines(lines: Seq<Seq<u8>>) -> Seq<JsonV>
    decreases lines.len(),
{
    if lines.len() == 0 {
        Seq::empty()
    } else {
        match spec_parse_json(lines[0]) {
            Some(v) => seq![v] + spec_decode_lines(lines.skip(1)),
            None => spec_decode_lines(lines.skip(1)),
        }
    }
}

/// Decoding one more line appends its document, if it holds one.
pub proof fn lemma_decode_lines_snoc(lines: Seq<Seq<u8>>, x: Seq<u8>)
    ensures
        spec_decode_lines(lines.push(x)) == match spec_parse_json(x) {
            Some(v) => spec_decode_lines(lines).push(v),
            None => spec_decode_lines(lines),
        },
    decreases lines.len(),
{
    reveal_with_fuel(spec_decode_lines, 3);
    if lines.len() == 0 {
        assert(lines.push(x).skip(1) =~= Seq::<Seq<u8>>::empty());
        match spec_parse_json(x) {
            Some(v) => {
                assert(seq![v] + Seq::<JsonV>::empty() =~= Seq::<JsonV>::empty().push(v));
            },
            None => {},
        }
    } else {
        assert(lines.push(x).skip(1) =~= lines.skip(1).push(x));
        lemma_decode_lines_snoc(lines.skip(1), x);
        match (spec_parse_json(lines[0]), spec_parse_json(x)) {
            (Some(v0), Some(v)) => {
                assert(seq![v0] + spec_decode_lines(lines.skip(1)).push(v) =~= (seq![v0]
                    + spec_decode_lines(lines.skip(1))).push(v));
            },
            _ => {},
        }
    }
}

/// Decodes the lines of a journal into documents, skipping lines that
/// hold none.
pub fn decode_journal_lines(lines: &Vec<Vec<u8>>) -> (r: Vec<Json>)
    requires
        forall|i: int| 0 <= i < lines@.len() ==> (#[trigger] lines@[i])@.len() <= 1000000000,
    ensures
        view_arr(r@) == spec_decode_lines(Seq::new(lines@.len(), |i: int| lines@[i]@)),
{
    broadcast use lemma_view_arr;

    let ghost lview = Seq::new(lines@.len(), |i: int| lines@[i]@);
    let mut out: Vec<Json> = Vec::new();
    let mut i: usize = 0;
    assert(lview.take(0) =~= Seq::<Seq<u8>>::empty());
    assert(view_arr(out@) =~= Seq::<JsonV>::empty());
    while i < lines.len()
        invariant
            0 <= i <= lines@.len(),
            lview == Seq::new(lines@.len(), |k: int| lines@[k]@),
            view_arr(out@) == spec_decode_lines(lview.take(i as int)),
        decreases lines@.len() - i,
    {
        proof {
            lemma_decode_lines_snoc(lview.take(i as int), lview[i as int]);
            assert(lview.take(i as int).push(lview[i as int]) =~= lview.take(i + 1));
        }
        match parse_json(lines[i].as_slice()) {
            Some(v) => {
                let ghost prev = out@;
                out.push(v);
                proof {
                    assert(view_arr(out@) =~= view_arr(prev).push(out@[out@.len() - 1]@));
                }
            },
            None => {},
        }
        i += 1;
    }
    proof {
        assert(lview.take(i as int) =~= lview);
    }
    out
}

} // verus!



