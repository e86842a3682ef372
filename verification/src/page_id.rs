//! Extracting a Notion page id from a page URL or a bare id.
use vstd::prelude::*;

use crate::text::{chars_of, push_char, push_range};

verus! {

/// An ASCII hexadecimal digit, in either case.
pub open spec fn is_hex_digit(c: char) -> bool {
    ('0' <= c && c <= '9') || ('a' <= c && c <= 'f') || ('A' <= c && c <= 'F')
}

/// The hexadecimal digits of `s`, in order.
pub open spec fn hex_digits(s: Seq<char>) -> Seq<char>
    decreases s.len(),
{
    if s.len() == 0 {
        Seq::empty()
    } else if is_hex_digit(s.last()) {
        hex_digits(s.drop_last()).push(s.last())
    } else {
        hex_digits(s.drop_last())
    }
}

/// The 8-4-4-4-12 form of a 32-digit id.
pub open spec fn dashed(id: Seq<char>) -> Seq<char> {
    id.subrange(0, 8) + seq!['-'] + id.subrange(8, 12) + seq!['-'] + id.subrange(12, 16) + seq![
        '-',
    ] + id.subrange(16, 20) + seq!['-'] + id.subrange(20, 32)
}

/// Index of the first `?` or `#` at or after `i` (where a URL's query or
/// fragment begins), or the length of `s`.
pub open spec fn query_start(s: Seq<char>, i: int) -> int
    decreases s.len() - i,
{
    if i < 0 || i >= s.len() {
        s.len() as int
    } else if s[i] == '?' || s[i] == '#' {
        i
    } else {
        query_start(s, i + 1)
    }
}

/// `s` without a query or fragment: everything before the first `?` or `#`.
pub open spec fn address_part(s: Seq<char>) -> Seq<char> {
    s.subrange(0, query_start(s, 0))
}

/// The digits that a page id is taken from: those before any query or
/// fragment where they are 32 or more, else those of the whole text (a link
/// that carries the id in its query, such as `?p=<id>`).
pub open spec fn id_digits(raw: Seq<char>) -> Seq<char> {
    let a = hex_digits(address_part(raw));
    if a.len() >= 32 {
        a
    } else {
        hex_digits(raw)
    }
}

/// The page id that `raw` names: the last 32 of its `id_digits`, in
/// 8-4-4-4-12 form, or `None` where the whole text holds fewer than 32
/// hexadecimal digits.
pub open spec fn page_id_of(raw: Seq<char>) -> Option<Seq<char>> {
    let h = id_digits(raw);
    if h.len() < 32 {
        None
    } else {
        Some(dashed(h.subrange(h.len() - 32, h.len() as int)))
    }
}

/// The message given for a text that holds no page id.
pub open spec fn missing_hex_message() -> Seq<char> {
    "ページ ID または URL に 32 文字の hex が含まれていません"@
}

fn is_hex_char(c: char) -> (res: bool)
    ensures
        res == is_hex_digit(c),
{
    ('0' <= c && c <= '9') || ('a' <= c && c <= 'f') || ('A' <= c && c <= 'F')
}

proof fn lemma_query_start(s: Seq<char>, i: int)
    requires
        0 <= i <= s.len(),
    ensures
        i <= query_start(s, i) <= s.len(),
        forall|j: int| i <= j < query_start(s, i) ==> s[j] != '?' && s[j] != '#',
        query_start(s, i) < s.len() ==> (s[query_start(s, i)] == '?' || s[query_start(s, i)]
            == '#'),
    decreases s.len() - i,
{
    if i < s.len() && s[i] != '?' && s[i] != '#' {
        lemma_query_start(s, i + 1);
    }
}

proof fn lemma_query_start_none(s: Seq<char>, i: int)
    requires
        0 <= i <= s.len(),
        forall|j: int| i <= j < s.len() ==> s[j] != '?' && s[j] != '#',
    ensures
        query_start(s, i) == s.len(),
    decreases s.len() - i,
{
    if i < s.len() {
        lemma_query_start_none(s, i + 1);
    }
}

fn hex_prefix(chars: &Vec<char>, n: usize) -> (hex: Vec<char>)
    requires
        n <= chars.len(),
    ensures
        hex@ == hex_digits(chars@.subrange(0, n as int)),
{
    let mut hex: Vec<char> = Vec::new();
    let mut i: usize = 0;
    while i < n
        invariant
            i <= n <= chars.len(),
            hex@ == hex_digits(chars@.subrange(0, i as int)),
        decreases n - i,
    {
        assert(chars@.subrange(0, i + 1).drop_last() =~= chars@.subrange(0, i as int));
        if is_hex_char(chars[i]) {
            hex.push(chars[i]);
        }
        i = i + 1;
    }
    hex
}

/// Pulls the 32-digit hexadecimal Notion id out of a page URL or a bare id
/// and writes it in 8-4-4-4-12 form. A query or fragment (from the first `?`
/// or `#` on) is left out where the address before it holds the id, so that
/// `?pvs=4` or a `#<block id>` does not shift it; a link whose address holds
/// no id (a side-peek link `?p=<id>`) is read whole. Of the digits read the
/// last 32 are taken. Fails where the text holds fewer than 32 hexadecimal
/// digits.
pub fn normalize_page_id(raw: &str) -> (res: Result<String, String>)
    ensures
        res is Ok <==> page_id_of(raw@) is Some,
        res matches Ok(id) ==> id@ == page_id_of(raw@).unwrap(),
        res matches Err(e) ==> e@ == missing_hex_message(),
{
    let chars = chars_of(raw);
    proof {
        lemma_query_start(chars@, 0);
    }
    let mut k: usize = 0;
    while k < chars.len() && chars[k] != '?' && chars[k] != '#'
        invariant
            k <= chars.len(),
            query_start(chars@, 0) == query_start(chars@, k as int),
        decreases chars.len() - k,
    {
        k = k + 1;
    }
    let mut hex = hex_prefix(&chars, k);
    assert(chars@ == raw@);
    assert(query_start(chars@, k as int) == k);
    assert(address_part(raw@) =~= chars@.subrange(0, k as int));
    if hex.len() < 32 {
        hex = hex_prefix(&chars, chars.len());
        assert(chars@.subrange(0, chars.len() as int) =~= raw@);
    }
    assert(hex@ == id_digits(raw@));
    if hex.len() < 32 {
        return Err("ページ ID または URL に 32 文字の hex が含まれていません".to_owned());
    }
    let b = hex.len() - 32;
    let mut out = String::new();
    push_range(&mut out, &hex, b, b + 8);
    push_char(&mut out, '-');
    push_range(&mut out, &hex, b + 8, b + 12);
    push_char(&mut out, '-');
    push_range(&mut out, &hex, b + 12, b + 16);
    push_char(&mut out, '-');
    push_range(&mut out, &hex, b + 16, b + 20);
    push_char(&mut out, '-');
    push_range(&mut out, &hex, b + 20, b + 32);
    proof {
        let id = hex@.subrange(b as int, b + 32);
        assert(id.subrange(0, 8) =~= hex@.subrange(b as int, b + 8));
        assert(id.subrange(8, 12) =~= hex@.subrange(b + 8, b + 12));
        assert(id.subrange(12, 16) =~= hex@.subrange(b + 12, b + 16));
        assert(id.subrange(16, 20) =~= hex@.subrange(b + 16, b + 20));
        assert(id.subrange(20, 32) =~= hex@.subrange(b + 20, b + 32));
        assert(out@ =~= dashed(id));
    }
    Ok(out)
}

/// The hexadecimal digits of a concatenation are those of each part.
pub proof fn lemma_hex_digits_concat(a: Seq<char>, b: Seq<char>)
    ensures
        hex_digits(a + b) == hex_digits(a) + hex_digits(b),
    decreases b.len(),
{
    if b.len() == 0 {
        assert(a + b =~= a);
        assert(hex_digits(a) + hex_digits(b) =~= hex_digits(a));
    } else {
        lemma_hex_digits_concat(a, b.drop_last());
        assert((a + b).drop_last() =~= a + b.drop_last());
        if is_hex_digit(b.last()) {
            assert(hex_digits(a) + hex_digits(b) =~= (hex_digits(a) + hex_digits(
                b.drop_last(),
            )).push(b.last()));
        }
    }
}

/// A text made only of hexadecimal digits is its own digit sequence.
pub proof fn lemma_hex_digits_all_hex(s: Seq<char>)
    requires
        forall|i: int| 0 <= i < s.len() ==> is_hex_digit(#[trigger] s[i]),
    ensures
        hex_digits(s) == s,
    decreases s.len(),
{
    if s.len() > 0 {
        lemma_hex_digits_all_hex(s.drop_last());
        assert(s.drop_last().push(s.last()) =~= s);
    }
}

/// Normalizing is idempotent: the id that a successful normalization gives
/// back normalizes to itself.
pub proof fn law_normalize_idempotent(raw: Seq<char>)
    requires
        page_id_of(raw) is Some,
    ensures
        page_id_of(page_id_of(raw).unwrap()) == page_id_of(raw),
{
    let h = id_digits(raw);
    let id = h.subrange(h.len() - 32, h.len() as int);
    assert forall|i: int| 0 <= i < id.len() implies is_hex_digit(#[trigger] id[i]) by {
        lemma_id_digits_are_hex(raw, h.len() - 32 + i);
    }
    law_page_id_shape(raw);
    let d = dashed(id);
    assert forall|j: int| 0 <= j < d.len() implies d[j] != '?' && d[j] != '#' by {
        if j != 8 && j != 13 && j != 18 && j != 23 {
            assert(is_hex_digit(d[j]));
        }
    }
    lemma_query_start_none(d, 0);
    assert(address_part(d) =~= d);
    let dash = seq!['-'];
    assert(hex_digits(dash) =~= Seq::<char>::empty()) by {
        assert(dash.drop_last() =~= Seq::<char>::empty());
        assert(dash.last() == '-');
        assert(!is_hex_digit(dash.last()));
        assert(hex_digits(Seq::<char>::empty()) =~= Seq::<char>::empty());
    }
    lemma_hex_digits_all_hex(id.subrange(0, 8));
    lemma_hex_digits_all_hex(id.subrange(8, 12));
    lemma_hex_digits_all_hex(id.subrange(12, 16));
    lemma_hex_digits_all_hex(id.subrange(16, 20));
    lemma_hex_digits_all_hex(id.subrange(20, 32));
    let p1 = id.subrange(0, 8) + dash;
    let p2 = p1 + id.subrange(8, 12);
    let p3 = p2 + dash;
    let p4 = p3 + id.subrange(12, 16);
    let p5 = p4 + dash;
    let p6 = p5 + id.subrange(16, 20);
    let p7 = p6 + dash;
    let p8 = p7 + id.subrange(20, 32);
    lemma_hex_digits_concat(id.subrange(0, 8), dash);
    lemma_hex_digits_concat(p1, id.subrange(8, 12));
    lemma_hex_digits_concat(p2, dash);
    lemma_hex_digits_concat(p3, id.subrange(12, 16));
    lemma_hex_digits_concat(p4, dash);
    lemma_hex_digits_concat(p5, id.subrange(16, 20));
    lemma_hex_digits_concat(p6, dash);
    lemma_hex_digits_concat(p7, id.subrange(20, 32));
    assert(p8 == dashed(id));
    assert(hex_digits(p8) =~= id);
    assert(id.subrange(0, 32) =~= id);
}

/// Every element of `hex_digits(s)` is a hexadecimal digit.
pub proof fn lemma_hex_digits_are_hex(s: Seq<char>, i: int)
    requires
        0 <= i < hex_digits(s).len(),
    ensures
        is_hex_digit(hex_digits(s)[i]),
    decreases s.len(),
{
    if s.len() > 0 {
        if is_hex_digit(s.last()) && i == hex_digits(s).len() - 1 {
        } else {
            lemma_hex_digits_are_hex(s.drop_last(), i);
        }
    }
}

/// A normalized page id has the 8-4-4-4-12 shape: 36 characters, dashes at
/// positions 8, 13, 18 and 23, hexadecimal digits everywhere else.
pub proof fn law_page_id_shape(raw: Seq<char>)
    requires
        page_id_of(raw) is Some,
    ensures
        ({
            let id = page_id_of(raw).unwrap();
            &&& id.len() == 36
            &&& id[8] == '-' && id[13] == '-' && id[18] == '-' && id[23] == '-'
            &&& forall|i: int|
                0 <= i < 36 && i != 8 && i != 13 && i != 18 && i != 23 ==> is_hex_digit(
                    #[trigger] id[i],
                )
        }),
{
    let h = id_digits(raw);
    let x = h.subrange(h.len() - 32, h.len() as int);
    let id = dashed(x);
    assert forall|i: int|
        0 <= i < 36 && i != 8 && i != 13 && i != 18 && i != 23 implies is_hex_digit(
            #[trigger] id[i],
        ) by {
        let j = if i < 8 {
            i
        } else if i < 13 {
            i - 1
        } else if i < 18 {
            i - 2
        } else if i < 23 {
            i - 3
        } else {
            i - 4
        };
        assert(id[i] == x[j]);
        lemma_id_digits_are_hex(raw, h.len() - 32 + j);
    }
}

/// Every digit a page id is taken from is a hexadecimal digit.
pub proof fn lemma_id_digits_are_hex(raw: Seq<char>, i: int)
    requires
        0 <= i < id_digits(raw).len(),
    ensures
        is_hex_digit(id_digits(raw)[i]),
{
    if hex_digits(address_part(raw)).len() >= 32 {
        lemma_hex_digits_are_hex(address_part(raw), i);
    } else {
        lemma_hex_digits_are_hex(raw, i);
    }
}

/// A text names a page exactly when it holds at least 32 hexadecimal digits.
pub proof fn law_page_id_exists(raw: Seq<char>)
    ensures
        page_id_of(raw) is Some <==> hex_digits(raw).len() >= 32,
{
    let q = query_start(raw, 0);
    lemma_query_start(raw, 0);
    lemma_hex_digits_concat(raw.subrange(0, q), raw.subrange(q, raw.len() as int));
    assert(raw.subrange(0, q) + raw.subrange(q, raw.len() as int) =~= raw);
}

/// `s` holds no `?` and no `#`: it has no query or fragment.
pub open spec fn has_no_query(s: Seq<char>) -> bool {
    forall|i: int| 0 <= i < s.len() ==> s[i] != '?' && s[i] != '#'
}

proof fn lemma_address_of_plain(s: Seq<char>)
    requires
        has_no_query(s),
    ensures
        address_part(s) == s,
{
    lemma_query_start_none(s, 0);
    assert(s.subrange(0, s.len() as int) =~= s);
}

/// The id is made of the last 32 hexadecimal digits read: for a text without
/// a query or fragment that holds 32 or more, it is the last 32 of them.
pub proof fn law_page_id_is_last_32_digits(raw: Seq<char>)
    requires
        has_no_query(raw),
        hex_digits(raw).len() >= 32,
    ensures
        page_id_of(raw) == Some(
            dashed(hex_digits(raw).subrange(hex_digits(raw).len() - 32, hex_digits(raw).len() as int)),
        ),
{
    lemma_address_of_plain(raw);
}

/// Hexadecimal digits written before a text that names a page do not change
/// the page it names.
pub proof fn law_page_id_ignores_leading_digits(p: Seq<char>, raw: Seq<char>)
    requires
        forall|i: int| 0 <= i < p.len() ==> is_hex_digit(#[trigger] p[i]),
        has_no_query(raw),
        page_id_of(raw) is Some,
    ensures
        page_id_of(p + raw) == page_id_of(raw),
{
    law_page_id_exists(raw);
    let x = p + raw;
    assert forall|i: int| 0 <= i < x.len() implies x[i] != '?' && x[i] != '#' by {
        if i < p.len() {
            assert(x[i] == p[i]);
            assert(is_hex_digit(p[i]));
        } else {
            assert(x[i] == raw[i - p.len()]);
        }
    }
    lemma_address_of_plain(raw);
    lemma_address_of_plain(x);
    lemma_hex_digits_concat(p, raw);
    lemma_hex_digits_all_hex(p);
    let h = hex_digits(raw);
    let hx = hex_digits(x);
    assert(hx == p + h);
    assert(hx.subrange(hx.len() - 32, hx.len() as int) =~= h.subrange(h.len() - 32, h.len() as int));
}

/// A query or fragment after an address that names a page does not change
/// the page: `?pvs=4` or `#<block id>` is left out.
pub proof fn law_page_id_ignores_query(a: Seq<char>, q: Seq<char>)
    requires
        has_no_query(a),
        hex_digits(a).len() >= 32,
    ensures
        page_id_of(a + seq!['?'] + q) == page_id_of(a),
        page_id_of(a + seq!['#'] + q) == page_id_of(a),
{
    lemma_address_of_plain(a);
    lemma_address_before_mark(a, '?', q);
    lemma_address_before_mark(a, '#', q);
}

proof fn lemma_address_before_mark(a: Seq<char>, m: char, q: Seq<char>)
    requires
        has_no_query(a),
        m == '?' || m == '#',
    ensures
        address_part(a + seq![m] + q) == a,
{
    let x = a + seq![m] + q;
    lemma_query_start(x, 0);
    let k = query_start(x, 0);
    assert(x[a.len() as int] == m);
    if k < a.len() {
        assert(x[k] == a[k]);
    }
    assert(k == a.len());
    assert(x.subrange(0, k) =~= a);
}

/// The hexadecimal digits, one by one.
pub open spec fn hex_digit_chars() -> Seq<char> {
    seq![
        '0', '1', '2', '3', '4', '5', '6', '7', '8', '9', 'a', 'b', 'c', 'd', 'e', 'f', 'A', 'B',
        'C', 'D', 'E', 'F',
    ]
}

/// A hexadecimal digit is one of the 22 ASCII characters `0`..`9`,
/// `a`..`f`, `A`..`F`, and nothing else (no full-width digit, no other
/// letter).
pub proof fn law_hex_digit_is_ascii_hex(c: char)
    ensures
        is_hex_digit(c) <==> hex_digit_chars().contains(c),
{
    let t = hex_digit_chars();
    let u = c as u32;
    if is_hex_digit(c) {
        if '0' <= c && c <= '9' {
            assert(t[u - 48] == c);
        } else if 'a' <= c && c <= 'f' {
            assert(t[u - 97 + 10] == c);
        } else {
            assert(t[u - 65 + 16] == c);
        }
    }
    if t.contains(c) {
        let i = choose|i: int| 0 <= i < t.len() && t[i] == c;
        assert(0 <= i < 22);
    }
}

} // verus!
