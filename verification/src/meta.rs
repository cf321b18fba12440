//! The trash sidecar record: a small JSON object holding the original path,
//! the trashed-at timestamp and the size in bytes. The library both renders
//! and reads this format, so reading back a rendered record is exact.

use vstd::prelude::*;
use crate::text::{
    all_digits, dec_of, dec_val, digit_val, hex_digit_char, hex_val, hex_val_of, is_digit,
    is_hex_digit, lemma_dec_round_trip, lemma_dec_val_prefix, lemma_hex_digit_val, u64_to_dec,
};
use crate::hash::hex_digit;

verus! {

/// A sidecar record, as carried by executable code.
pub struct TrashMeta {
    pub original_path: String,
    /// RFC 3339 rendering of the trashed-at instant.
    pub trashed_at: String,
    pub size_bytes: u64,
}

/// A sidecar record, as carried by specifications.
pub ghost struct MetaFields {
    pub original_path: Seq<char>,
    pub trashed_at: Seq<char>,
    pub size_bytes: int,
}

/// How one character is written inside a JSON string: quote and backslash
/// get a backslash escape, a control character becomes a four-digit hex
/// escape, everything else stands for itself.
pub open spec fn esc_char(c: char) -> Seq<char> {
    if c == '\\' || c == '"' {
        seq!['\\', c]
    } else if (c as u32) < 32 {
        seq!['\\', 'u', '0', '0', hex_digit(c as u32 as int / 16), hex_digit(c as u32 as int % 16)]
    } else {
        seq![c]
    }
}

/// A whole string escaped for a JSON string literal.
pub open spec fn esc_str(s: Seq<char>) -> Seq<char>
    decreases s.len(),
{
    if s.len() == 0 {
        Seq::empty()
    } else {
        esc_char(s.first()) + esc_str(s.drop_first())
    }
}

proof fn lemma_esc_push(s: Seq<char>, c: char)
    ensures
        esc_str(s.push(c)) == esc_str(s) + esc_char(c),
    decreases s.len(),
{
    if s.len() == 0 {
        assert(s.push(c).first() == c);
        assert(s.push(c).drop_first() =~= Seq::<char>::empty());
        assert(esc_str(s.push(c)) == esc_char(c) + esc_str(Seq::<char>::empty()));
        assert(esc_char(c) + Seq::<char>::empty() =~= esc_char(c));
        assert(esc_str(s) + esc_char(c) =~= esc_char(c));
    } else {
        assert(s.push(c).drop_first() =~= s.drop_first().push(c));
        assert(s.push(c).first() == s.first());
        lemma_esc_push(s.drop_first(), c);
        assert(esc_char(s.first()) + (esc_str(s.drop_first()) + esc_char(c)) =~= (esc_char(
            s.first(),
        ) + esc_str(s.drop_first())) + esc_char(c));
    }
}

/// Escape a string for embedding in a JSON string literal.
pub fn escape_json(s: &str) -> (r: String)
    ensures
        r@ == esc_str(s@),
{
    let n = s.unicode_len();
    let mut acc = String::new();
    let mut i: usize = 0;
    proof {
        assert(acc@ =~= esc_str(s@.take(0)));
    }
    while i < n
        invariant
            i <= n,
            n == s@.len(),
            acc@ == esc_str(s@.take(i as int)),
        decreases n - i,
    {
        let c = s.get_char(i);
        proof {
            assert(s@.take(i as int).push(c) =~= s@.take(i + 1));
            lemma_esc_push(s@.take(i as int), c);
        }
        if c == '\\' || c == '"' {
            acc.push('\\');
            acc.push(c);
        } else {
            let u = c as u32;
            if u < 32 {
                acc.push('\\');
                acc.push('u');
                acc.push('0');
                acc.push('0');
                acc.push(hex_digit_char((u / 16) as u8));
                acc.push(hex_digit_char((u % 16) as u8));
            } else {
                acc.push(c);
            }
        }
        i = i + 1;
    }
    proof {
        assert(s@.take(n as int) =~= s@);
    }
    acc
}

/// The canonical rendering of a sidecar record.
pub open spec fn spec_encode_meta(p: Seq<char>, t: Seq<char>, n: int) -> Seq<char> {
    "{\"original_path\":\""@ + esc_str(p) + "\",\"trashed_at\":\""@ + esc_str(t)
        + "\",\"size_bytes\":"@ + dec_of(n) + seq!['}']
}

/// Render a sidecar record as one line of JSON.
pub fn encode_meta(m: &TrashMeta) -> (r: String)
    ensures
        r@ == spec_encode_meta(m.original_path@, m.trashed_at@, m.size_bytes as int),
{
    let mut r = "{\"original_path\":\"".to_owned();
    let ep = escape_json(m.original_path.as_str());
    r.append(ep.as_str());
    r.append("\",\"trashed_at\":\"");
    let et = escape_json(m.trashed_at.as_str());
    r.append(et.as_str());
    r.append("\",\"size_bytes\":");
    let d = u64_to_dec(m.size_bytes);
    r.append(d.as_str());
    r.push('}');
    proof {
        assert(r@ =~= spec_encode_meta(m.original_path@, m.trashed_at@, m.size_bytes as int));
    }
    r
}

/// Scan a JSON string body starting at `i`: unescape up to, but not
/// including, the closing unescaped quote. The two backslash escapes and
/// the canonical control-character escape are read back; any other escape
/// fails the scan. Yields the content and the index of the closing quote.
pub open spec fn scan_string(s: Seq<char>, i: int) -> Option<(Seq<char>, int)>
    decreases s.len() - i,
{
    if i < 0 || i >= s.len() {
        None
    } else if s[i] == '"' {
        Some((Seq::empty(), i))
    } else if s[i] == '\\' {
        if i + 1 < s.len() && (s[i + 1] == '\\' || s[i + 1] == '"') {
            match scan_string(s, i + 2) {
                None => None,
                Some(pr) => Some((seq![s[i + 1]] + pr.0, pr.1)),
            }
        } else if i + 5 < s.len() && s[i + 1] == 'u' && s[i + 2] == '0' && s[i + 3] == '0'
            && is_hex_digit(s[i + 4]) && is_hex_digit(s[i + 5]) && 16 * hex_val(s[i + 4]) + hex_val(
            s[i + 5],
        ) < 32 {
            match scan_string(s, i + 6) {
                None => None,
                Some(pr) => Some(
                    (seq![((16 * hex_val(s[i + 4]) + hex_val(s[i + 5])) as u8) as char] + pr.0, pr.1),
                ),
            }
        } else {
            None
        }
    } else {
        match scan_string(s, i + 1) {
            None => None,
            Some(pr) => Some((seq![s[i]] + pr.0, pr.1)),
        }
    }
}

/// Scanning what `esc_str` wrote, with the closing quote next, recovers the
/// original characters and stops at that quote.
proof fn lemma_scan_esc(s: Seq<char>, i: int, x: Seq<char>)
    requires
        0 <= i,
        i + esc_str(x).len() < s.len(),
        s.subrange(i, i + esc_str(x).len()) == esc_str(x),
        s[i + esc_str(x).len()] == '"',
    ensures
        scan_string(s, i) == Some((x, i + esc_str(x).len())),
    decreases x.len(),
{
    if x.len() == 0 {
        assert(s[i] == '"');
    } else {
        let c = x.first();
        let e = esc_char(c);
        let rest = x.drop_first();
        assert(esc_str(x) == e + esc_str(rest));
        assert forall|k: int| 0 <= k < esc_str(x).len() implies s[i + k] == esc_str(x)[k] by {
            assert(s.subrange(i, i + esc_str(x).len())[k] == s[i + k]);
        }
        if c == '\\' || c == '"' {
            assert(e == seq!['\\', c]);
            assert(s[i + 0] == esc_str(x)[0] && esc_str(x)[0] == e[0]);
            assert(s[i + 1] == esc_str(x)[1] && esc_str(x)[1] == e[1]);
            assert(s[i] == '\\');
            assert(s[i + 1] == c);
            assert(s.subrange(i + 2, i + 2 + esc_str(rest).len()) =~= esc_str(rest)) by {
                assert forall|k: int| 0 <= k < esc_str(rest).len() implies s.subrange(
                    i + 2,
                    i + 2 + esc_str(rest).len(),
                )[k] == esc_str(rest)[k] by {
                    assert(s[i + 2 + k] == esc_str(x)[k + 2]);
                    assert(esc_str(x)[k + 2] == esc_str(rest)[k]);
                }
            }
            lemma_scan_esc(s, i + 2, rest);
            assert(seq![s[i + 1]] + rest =~= x);
        } else if (c as u32) < 32 {
            let cu = c as u32 as int;
            assert(e == seq!['\\', 'u', '0', '0', hex_digit(cu / 16), hex_digit(cu % 16)]);
            assert(s[i + 0] == esc_str(x)[0] && esc_str(x)[0] == e[0]);
            assert(s[i + 1] == esc_str(x)[1] && esc_str(x)[1] == e[1]);
            assert(s[i + 2] == esc_str(x)[2] && esc_str(x)[2] == e[2]);
            assert(s[i + 3] == esc_str(x)[3] && esc_str(x)[3] == e[3]);
            assert(s[i + 4] == esc_str(x)[4] && esc_str(x)[4] == e[4]);
            assert(s[i + 5] == esc_str(x)[5] && esc_str(x)[5] == e[5]);
            assert(s[i] == '\\' && s[i + 1] == 'u' && s[i + 2] == '0' && s[i + 3] == '0');
            lemma_hex_digit_val(cu / 16);
            lemma_hex_digit_val(cu % 16);
            assert(is_hex_digit(s[i + 4]) && hex_val(s[i + 4]) == cu / 16);
            assert(is_hex_digit(s[i + 5]) && hex_val(s[i + 5]) == cu % 16);
            assert(16 * hex_val(s[i + 4]) + hex_val(s[i + 5]) == cu);
            assert(s.subrange(i + 6, i + 6 + esc_str(rest).len()) =~= esc_str(rest)) by {
                assert forall|k: int| 0 <= k < esc_str(rest).len() implies s.subrange(
                    i + 6,
                    i + 6 + esc_str(rest).len(),
                )[k] == esc_str(rest)[k] by {
                    assert(s[i + 6 + k] == esc_str(x)[k + 6]);
                    assert(esc_str(x)[k + 6] == esc_str(rest)[k]);
                }
            }
            lemma_scan_esc(s, i + 6, rest);
            assert(16 * hex_val(s[i + 4]) + hex_val(s[i + 5]) == c as u32 as int);
            vstd::utf8::char_u32_cast(c, c as u32);
            assert(((16 * hex_val(s[i + 4]) + hex_val(s[i + 5])) as u8) as char == ((c as u32) as char));
            assert(((16 * hex_val(s[i + 4]) + hex_val(s[i + 5])) as u8) as char == c);
            assert(seq![c] + rest =~= x);
        } else {
            assert(e == seq![c]);
            assert(s[i + 0] == esc_str(x)[0] && esc_str(x)[0] == e[0]);
            assert(s[i] == c);
            assert(s[i] != '"' && s[i] != '\\');
            assert(s.subrange(i + 1, i + 1 + esc_str(rest).len()) =~= esc_str(rest)) by {
                assert forall|k: int| 0 <= k < esc_str(rest).len() implies s.subrange(
                    i + 1,
                    i + 1 + esc_str(rest).len(),
                )[k] == esc_str(rest)[k] by {
                    assert(s[i + 1 + k] == esc_str(x)[k + 1]);
                    assert(esc_str(x)[k + 1] == esc_str(rest)[k]);
                }
            }
            lemma_scan_esc(s, i + 1, rest);
            assert(seq![s[i]] + rest =~= x);
        }
    }
}

/// The first index at or after `i` whose character is not a decimal digit.
pub open spec fn digit_run_end(s: Seq<char>, i: int) -> int
    decreases s.len() - i,
{
    if 0 <= i < s.len() && is_digit(s[i]) {
        digit_run_end(s, i + 1)
    } else {
        i
    }
}

proof fn lemma_digit_run_props(s: Seq<char>, i: int)
    requires
        0 <= i <= s.len(),
    ensures
        i <= digit_run_end(s, i) <= s.len(),
        forall|k: int| i <= k < digit_run_end(s, i) ==> is_digit(#[trigger] s[k]),
        digit_run_end(s, i) == s.len() || !is_digit(s[digit_run_end(s, i)]),
    decreases s.len() - i,
{
    if 0 <= i < s.len() && is_digit(s[i]) {
        lemma_digit_run_props(s, i + 1);
    }
}

/// A run that is exactly the digits of `dec_of(n)` followed by a non-digit
/// ends right after those digits.
pub proof fn lemma_digit_run_of_dec(s: Seq<char>, i: int, n: int)
    requires
        0 <= n,
        0 <= i,
        i + dec_of(n).len() < s.len(),
        s.subrange(i, i + dec_of(n).len()) == dec_of(n),
        !is_digit(s[i + dec_of(n).len()]),
    ensures
        digit_run_end(s, i) == i + dec_of(n).len(),
        dec_val(s.subrange(i, i + dec_of(n).len())) == n,
{
    lemma_dec_round_trip(n);
    assert forall|k: int| i <= k < i + dec_of(n).len() implies is_digit(#[trigger] s[k]) by {
        assert(s.subrange(i, i + dec_of(n).len())[k - i] == s[k]);
        assert(is_digit(dec_of(n)[k - i]));
    }
    lemma_digit_run_stops(s, i, i + dec_of(n).len());
}

/// If every character in `[i, e)` is a digit and the run cannot continue at
/// `e`, the digit run starting at `i` ends at `e`.
proof fn lemma_digit_run_stops(s: Seq<char>, i: int, e: int)
    requires
        0 <= i <= e <= s.len(),
        forall|k: int| i <= k < e ==> is_digit(#[trigger] s[k]),
        e == s.len() || !is_digit(s[e]),
    ensures
        digit_run_end(s, i) == e,
    decreases e - i,
{
    if i < e {
        lemma_digit_run_stops(s, i + 1, e);
    }
}

/// The value of a decimal digit character, executably.
fn digit_of(c: char) -> (r: Option<u8>)
    ensures
        match r {
            Some(d) => is_digit(c) && d as int == digit_val(c),
            None => !is_digit(c),
        },
{
    match c {
        '0' => Some(0),
        '1' => Some(1),
        '2' => Some(2),
        '3' => Some(3),
        '4' => Some(4),
        '5' => Some(5),
        '6' => Some(6),
        '7' => Some(7),
        '8' => Some(8),
        '9' => Some(9),
        _ => None,
    }
}

/// Whether `lit` occurs in `s` at position `i`.
fn match_lit(s: &str, i: usize, lit: &str) -> (r: bool)
    requires
        i <= s@.len(),
    ensures
        r == (i + lit@.len() <= s@.len() && s@.subrange(i as int, i + lit@.len()) == lit@),
{
    let n = s.unicode_len();
    let m = lit.unicode_len();
    if m > n - i {
        return false;
    }
    let mut k: usize = 0;
    while k < m
        invariant
            k <= m,
            m == lit@.len(),
            n == s@.len(),
            i + m <= n,
            forall|q: int| 0 <= q < k ==> s@[i + q] == lit@[q],
        decreases m - k,
    {
        if s.get_char(i + k) != lit.get_char(k) {
            assert(s@.subrange(i as int, i + lit@.len())[k as int] != lit@[k as int]);
            return false;
        }
        k = k + 1;
    }
    assert(s@.subrange(i as int, i + lit@.len()) =~= lit@);
    true
}

/// Scan a JSON string body starting at `start`, unescaping as `scan_string`
/// describes.
fn scan_json_string(s: &str, start: usize) -> (r: Option<(String, usize)>)
    ensures
        match r {
            Some(pr) => scan_string(s@, start as int) == Some((pr.0@, pr.1 as int)) && start
                <= pr.1 < s@.len(),
            None => scan_string(s@, start as int) is None,
        },
{
    let n = s.unicode_len();
    if start >= n {
        return None;
    }
    let mut i = start;
    let mut acc = String::new();
    proof {
        match scan_string(s@, start as int) {
            Some(pr) => {
                assert(Seq::<char>::empty() + pr.0 =~= pr.0);
            },
            None => {},
        }
    }
    loop
        invariant
            start <= i <= n,
            n == s@.len(),
            match scan_string(s@, i as int) {
                Some(pr) => scan_string(s@, start as int) == Some((acc@ + pr.0, pr.1)),
                None => scan_string(s@, start as int) is None,
            },
        decreases n - i,
    {
        if i >= n {
            return None;
        }
        let c = s.get_char(i);
        if c == '"' {
            proof {
                assert(acc@ + Seq::<char>::empty() =~= acc@);
            }
            return Some((acc, i));
        }
        if c == '\\' {
            if i + 1 < n {
                let c2 = s.get_char(i + 1);
                if c2 == '\\' || c2 == '"' {
                    proof {
                        match scan_string(s@, i + 2) {
                            Some(pr) => {
                                assert(acc@ + (seq![c2] + pr.0) =~= (acc@ + seq![c2]) + pr.0);
                                assert(acc@.push(c2) =~= acc@ + seq![c2]);
                            },
                            None => {},
                        }
                    }
                    acc.push(c2);
                    i = i + 2;
                } else if c2 == 'u' && n - i > 5 {
                    let z1 = s.get_char(i + 2);
                    let z2 = s.get_char(i + 3);
                    if z1 != '0' || z2 != '0' {
                        return None;
                    }
                    let h1 = match hex_val_of(s.get_char(i + 4)) {
                        Some(v) => v,
                        None => {
                            return None;
                        },
                    };
                    let h2 = match hex_val_of(s.get_char(i + 5)) {
                        Some(v) => v,
                        None => {
                            return None;
                        },
                    };
                    let v: u8 = 16 * h1 + h2;
                    if v >= 32 {
                        return None;
                    }
                    let decoded = v as char;
                    proof {
                        assert(decoded == ((16 * hex_val(s@[i + 4]) + hex_val(s@[i + 5])) as u8) as char);
                        match scan_string(s@, i + 6) {
                            Some(pr) => {
                                assert(acc@ + (seq![decoded] + pr.0) =~= (acc@ + seq![decoded])
                                    + pr.0);
                                assert(acc@.push(decoded) =~= acc@ + seq![decoded]);
                            },
                            None => {},
                        }
                    }
                    acc.push(decoded);
                    i = i + 6;
                } else {
                    return None;
                }
            } else {
                return None;
            }
        } else {
            proof {
                match scan_string(s@, i + 1) {
                    Some(pr) => {
                        assert(acc@ + (seq![c] + pr.0) =~= (acc@ + seq![c]) + pr.0);
                        assert(acc@.push(c) =~= acc@ + seq![c]);
                    },
                    None => {},
                }
            }
            acc.push(c);
            i = i + 1;
        }
    }
}

/// Read the digit run starting at `start` as a number, or report that it is
/// empty or does not fit in a u64.
fn scan_size(s: &str, start: usize) -> (r: Option<(u64, usize)>)
    requires
        start <= s@.len(),
    ensures
        ({
            let e = digit_run_end(s@, start as int);
            match r {
                Some(pr) => pr.1 as int == e && e > start && dec_val(
                    s@.subrange(start as int, e),
                ) == pr.0 as int,
                None => e == start || dec_val(s@.subrange(start as int, e)) > u64::MAX,
            }
        }),
{
    let n = s.unicode_len();
    let ghost e = digit_run_end(s@, start as int);
    proof {
        lemma_digit_run_props(s@, start as int);
    }
    let mut j = start;
    let mut acc: u64 = 0;
    proof {
        assert(s@.subrange(start as int, start as int) =~= Seq::<char>::empty());
    }
    while j < n && is_digit_at(s, j)
        invariant
            start <= j <= n,
            n == s@.len(),
            j as int <= e,
            e == digit_run_end(s@, start as int),
            e <= n,
            forall|k: int| start <= k < e ==> is_digit(#[trigger] s@[k]),
            e == n || !is_digit(s@[e]),
            acc as int == dec_val(s@.subrange(start as int, j as int)),
        decreases n - j,
    {
        let c = s.get_char(j);
        let d = match digit_of(c) {
            Some(d) => d,
            None => 0,
        };
        proof {
            lemma_digit_run_stops_at(s@, start as int, j as int);
            assert(s@.subrange(start as int, j + 1).drop_last() =~= s@.subrange(
                start as int,
                j as int,
            ));
            assert(dec_val(s@.subrange(start as int, j + 1)) == acc as int * 10 + d as int);
        }
        if acc > u64::MAX / 10 || (acc == u64::MAX / 10 && d > (u64::MAX % 10) as u8) {
            proof {
                assert(acc as int * 10 + d as int > u64::MAX);
                let run = s@.subrange(start as int, e as int);
                assert(all_digits(run)) by {
                    assert(forall|k: int|
                        0 <= k < run.len() ==> run[k] == s@[start + k] && is_digit(
                            #[trigger] run[k],
                        ));
                }
                lemma_dec_val_prefix(run, j + 1 - start);
                assert(run.take(j + 1 - start) =~= s@.subrange(start as int, j + 1));
            }
            return None;
        }
        acc = acc * 10 + (d as u64);
        j = j + 1;
    }
    proof {
        assert forall|k: int| start <= k < j implies is_digit(#[trigger] s@[k]) by {}
        lemma_digit_run_stops(s@, start as int, j as int);
    }
    if j == start {
        return None;
    }
    Some((acc, j))
}

/// Whether the character at `j` is a decimal digit.
fn is_digit_at(s: &str, j: usize) -> (r: bool)
    requires
        j < s@.len(),
    ensures
        r == is_digit(s@[j as int]),
{
    match digit_of(s.get_char(j)) {
        Some(_) => true,
        None => false,
    }
}

/// Inside a digit run, every prefix position is still a digit position.
proof fn lemma_digit_run_stops_at(s: Seq<char>, i: int, j: int)
    requires
        0 <= i <= j,
        j < s.len(),
        is_digit(s[j]),
        forall|k: int| i <= k < digit_run_end(s, i) ==> is_digit(#[trigger] s[k]),
        digit_run_end(s, i) == s.len() || !is_digit(s[digit_run_end(s, i)]),
        j <= digit_run_end(s, i),
    ensures
        j < digit_run_end(s, i),
{
}

/// Parse the canonical sidecar rendering: the exact shape `encode_meta`
/// writes, with the three fields in order and the size fitting in a u64.
pub open spec fn spec_parse_meta(s: Seq<char>) -> Option<MetaFields> {
    let l1 = "{\"original_path\":\""@;
    let l2 = "\",\"trashed_at\":\""@;
    let l3 = "\",\"size_bytes\":"@;
    if !(l1.len() <= s.len() && s.subrange(0, l1.len() as int) == l1) {
        None
    } else {
        match scan_string(s, l1.len() as int) {
            None => None,
            Some(pr1) => {
                let j1 = pr1.1;
                if !(j1 + l2.len() <= s.len() && s.subrange(j1, j1 + l2.len()) == l2) {
                    None
                } else {
                    match scan_string(s, j1 + l2.len()) {
                        None => None,
                        Some(pr2) => {
                            let j2 = pr2.1;
                            if !(j2 + l3.len() <= s.len() && s.subrange(j2, j2 + l3.len()) == l3) {
                                None
                            } else {
                                let d0 = j2 + l3.len();
                                let d1 = digit_run_end(s, d0);
                                if d1 == d0 || d1 + 1 != s.len() || s[d1] != '}' || dec_val(
                                    s.subrange(d0, d1),
                                ) > u64::MAX {
                                    None
                                } else {
                                    Some(
                                        MetaFields {
                                            original_path: pr1.0,
                                            trashed_at: pr2.0,
                                            size_bytes: dec_val(s.subrange(d0, d1)),
                                        },
                                    )
                                }
                            }
                        },
                    }
                }
            },
        }
    }
}

/// Reading back a rendered sidecar record gives the record again, exactly:
/// the path, the timestamp text and the size survive the trip for every
/// value, escapes included.
pub proof fn lemma_meta_round_trip(p: Seq<char>, t: Seq<char>, n: int)
    requires
        0 <= n <= u64::MAX,
    ensures
        spec_parse_meta(spec_encode_meta(p, t, n)) matches Some(f) && f.original_path == p
            && f.trashed_at == t && f.size_bytes == n,
{
    let l1 = "{\"original_path\":\""@;
    let l2 = "\",\"trashed_at\":\""@;
    let l3 = "\",\"size_bytes\":"@;
    let ep = esc_str(p);
    let et = esc_str(t);
    let d = dec_of(n);
    let s = spec_encode_meta(p, t, n);
    lemma_dec_round_trip(n);
    reveal_strlit("{\"original_path\":\"");
    reveal_strlit("\",\"trashed_at\":\"");
    reveal_strlit("\",\"size_bytes\":");
    assert(s.len() == l1.len() + ep.len() + l2.len() + et.len() + l3.len() + d.len() + 1);
    assert(s.subrange(0, l1.len() as int) =~= l1);
    let i1 = l1.len() as int;
    assert(s.subrange(i1, i1 + ep.len()) =~= ep);
    assert(s[i1 + ep.len()] == l2[0]);
    assert(l2[0] == '"');
    lemma_scan_esc(s, i1, p);
    let j1 = i1 + ep.len();
    assert(s.subrange(j1, j1 + l2.len()) =~= l2);
    let i2 = j1 + l2.len();
    assert(s.subrange(i2, i2 + et.len()) =~= et);
    assert(s[i2 + et.len()] == l3[0]);
    assert(l3[0] == '"');
    lemma_scan_esc(s, i2, t);
    let j2 = i2 + et.len();
    assert(s.subrange(j2, j2 + l3.len()) =~= l3);
    let d0 = j2 + l3.len();
    assert(s.subrange(d0, d0 + d.len()) =~= d);
    assert(s[d0 + d.len()] == '}');
    assert(!is_digit('}'));
    lemma_digit_run_of_dec(s, d0, n);
    let d1 = digit_run_end(s, d0);
    assert(d1 == d0 + d.len());
    assert(d1 + 1 == s.len());
    assert(dec_val(s.subrange(d0, d1)) == n);
    assert(d.len() >= 1);
}

/// Read a sidecar record back from its canonical rendering. Anything else —
/// a missing key, a malformed escape, trailing text, a size that does not
/// fit — yields nothing, and the caller omits the entry.
pub fn parse_meta(s: &str) -> (r: Option<TrashMeta>)
    ensures
        match r {
            Some(m) => spec_parse_meta(s@) matches Some(f) && f.original_path
                == m.original_path@ && f.trashed_at == m.trashed_at@ && f.size_bytes
                == m.size_bytes as int,
            None => spec_parse_meta(s@) is None,
        },
{
    let n = s.unicode_len();
    let l1 = "{\"original_path\":\"";
    if !crate::text::starts_with(s, l1) {
        return None;
    }
    let i1 = l1.unicode_len();
    let sc1 = scan_json_string(s, i1);
    let (p, j1) = match sc1 {
        None => {
            return None;
        },
        Some(pr) => pr,
    };
    let l2 = "\",\"trashed_at\":\"";
    if !match_lit(s, j1, l2) {
        return None;
    }
    let i2 = j1 + l2.unicode_len();
    let sc2 = scan_json_string(s, i2);
    let (t, j2) = match sc2 {
        None => {
            return None;
        },
        Some(pr) => pr,
    };
    let l3 = "\",\"size_bytes\":";
    if !match_lit(s, j2, l3) {
        return None;
    }
    let d0 = j2 + l3.unicode_len();
    let sz = scan_size(s, d0);
    let (v, d1) = match sz {
        None => {
            return None;
        },
        Some(pr) => pr,
    };
    if d1 >= n || d1 + 1 != n {
        return None;
    }
    if s.get_char(d1) != '}' {
        return None;
    }
    Some(TrashMeta { original_path: p, trashed_at: t, size_bytes: v })
}

/// Two sidecar renderings agree only when the records do: nothing is lost
/// in rendering, so a restore can never confuse two trashed files' records.
pub proof fn lemma_encode_meta_injective(
    p1: Seq<char>,
    t1: Seq<char>,
    n1: int,
    p2: Seq<char>,
    t2: Seq<char>,
    n2: int,
)
    requires
        0 <= n1 <= u64::MAX,
        0 <= n2 <= u64::MAX,
        spec_encode_meta(p1, t1, n1) == spec_encode_meta(p2, t2, n2),
    ensures
        p1 == p2,
        t1 == t2,
        n1 == n2,
{
    lemma_meta_round_trip(p1, t1, n1);
    lemma_meta_round_trip(p2, t2, n2);
}

} // verus!
