//! Turning the Markdown minutes into Notion blocks.
use vstd::prelude::*;

use crate::text::{
    char_width, char_width_of, chars_of, is_ws, law_char_width_is_encoding_length,
    law_utf8_len_is_byte_length, lemma_utf8_len_concat, push_char, trim, trim_at,
    trim_end, trim_end_at, trim_start, utf8_len,
};

verus! {

/// Notion's limit on the UTF-8 size of one rich-text item.
pub const RICH_TEXT_LIMIT: usize = 2000;

/// Concatenation of all pieces, in order.
pub open spec fn concat_all(pieces: Seq<Seq<char>>) -> Seq<char>
    decreases pieces.len(),
{
    if pieces.len() == 0 {
        Seq::empty()
    } else {
        concat_all(pieces.drop_last()) + pieces.last()
    }
}

/// The character sequences that a vector of strings holds.
pub open spec fn string_views(v: Seq<String>) -> Seq<Seq<char>> {
    v.map_values(|s: String| s@)
}

/// `pieces` is how `s` is cut into Notion rich-text items: the pieces put
/// back together give `s`, none is larger than the limit, and each piece but
/// the last is as long as the limit allows (the next character would not fit).
pub open spec fn is_rich_text_split(s: Seq<char>, pieces: Seq<Seq<char>>) -> bool {
    &&& concat_all(pieces) == s
    &&& pieces.len() >= 1
    &&& forall|k: int| 0 <= k < pieces.len() ==> utf8_len(#[trigger] pieces[k]) <= RICH_TEXT_LIMIT
    &&& forall|k: int|
        1 <= k < pieces.len() ==> (#[trigger] pieces[k]).len() > 0 && utf8_len(pieces[k - 1])
            + char_width(pieces[k][0]) > RICH_TEXT_LIMIT
}

/// Cuts `v@[lo..hi]` into rich-text items.
fn rich_text_range(v: &Vec<char>, lo: usize, hi: usize) -> (res: Vec<String>)
    requires
        lo <= hi <= v.len(),
    ensures
        is_rich_text_split(v@.subrange(lo as int, hi as int), string_views(res@)),
{
    let mut chunks: Vec<String> = Vec::new();
    let ghost mut cv: Seq<Seq<char>> = Seq::empty();
    let mut cur = String::new();
    let mut cur_bytes: usize = 0;
    let mut i = lo;
    while i < hi
        invariant
            lo <= i <= hi <= v.len(),
            cv == string_views(chunks@),
            concat_all(cv) + cur@ == v@.subrange(lo as int, i as int),
            cur_bytes == utf8_len(cur@),
            cur_bytes <= RICH_TEXT_LIMIT,
            forall|k: int| 0 <= k < cv.len() ==> utf8_len(#[trigger] cv[k]) <= RICH_TEXT_LIMIT,
            forall|k: int|
                1 <= k < cv.len() ==> (#[trigger] cv[k]).len() > 0 && utf8_len(cv[k - 1])
                    + char_width(cv[k][0]) > RICH_TEXT_LIMIT,
            cv.len() > 0 ==> cur@.len() > 0 && utf8_len(cv.last()) + char_width(cur@[0])
                > RICH_TEXT_LIMIT,
        decreases hi - i,
    {
        let c = v[i];
        let w = char_width_of(c);
        if cur_bytes + w > RICH_TEXT_LIMIT {
            let ghost old_cv = cv;
            let ghost old_cur = cur@;
            proof {
                cv = cv.push(cur@);
                assert(cv.drop_last() =~= old_cv);
            }
            chunks.push(cur);
            cur = String::new();
            cur_bytes = 0;
            assert(string_views(chunks@) =~= cv);
            assert(concat_all(cv) + cur@ =~= concat_all(old_cv) + old_cur);
        }
        let ghost before = cur@;
        push_char(&mut cur, c);
        proof {
            assert(cur@.drop_last() =~= before);
            assert(utf8_len(cur@) == utf8_len(before) + char_width(c));
        }
        cur_bytes = cur_bytes + w;
        assert(cur@ == before.push(c));
        assert(v@.subrange(lo as int, i + 1) =~= v@.subrange(lo as int, i as int).push(c));
        assert(concat_all(cv) + cur@ =~= (concat_all(cv) + before).push(c));
        i = i + 1;
    }
    let ghost old_cv = cv;
    let ghost last = cur@;
    proof {
        cv = cv.push(cur@);
        assert(cv.drop_last() =~= old_cv);
    }
    chunks.push(cur);
    assert(string_views(chunks@) =~= cv);
    assert(concat_all(cv) =~= concat_all(old_cv) + last);
    chunks
}

/// Cuts `content` into Notion rich-text items of at most 2000 UTF-8 bytes,
/// each as long as the limit allows, cutting only between characters.
pub fn rich_text(content: &str) -> (res: Vec<String>)
    ensures
        is_rich_text_split(content@, string_views(res@)),
{
    let v = chars_of(content);
    assert(v@.subrange(0, v@.len() as int) =~= v@);
    rich_text_range(&v, 0, v.len())
}

/// Index of the first line feed at or after `i`, or the length of `s`.
pub open spec fn next_newline(s: Seq<char>, i: int) -> int
    decreases s.len() - i,
{
    if i < 0 || i >= s.len() {
        s.len() as int
    } else if s[i] == '\n' {
        i
    } else {
        next_newline(s, i + 1)
    }
}

/// Where the next line feed stands, and that none comes before it.
pub proof fn lemma_next_newline(s: Seq<char>, i: int)
    requires
        0 <= i <= s.len(),
    ensures
        i <= next_newline(s, i) <= s.len(),
        next_newline(s, i) < s.len() ==> s[next_newline(s, i)] == '\n',
        forall|j: int| i <= j < next_newline(s, i) ==> s[j] != '\n',
    decreases s.len() - i,
{
    if i < s.len() && s[i] != '\n' {
        lemma_next_newline(s, i + 1);
    }
}

/// The line that starts at `start`: up to the next line feed, without it,
/// and without a carriage return just before it.
pub open spec fn line_at(s: Seq<char>, start: int) -> Seq<char> {
    let e = next_newline(s, start);
    let raw = s.subrange(start, e);
    if e < s.len() && raw.len() > 0 && raw.last() == '\r' {
        raw.drop_last()
    } else {
        raw
    }
}

/// The lines of `s` from `start` on, as `str::lines` yields them.
pub open spec fn lines_from(s: Seq<char>, start: int) -> Seq<Seq<char>>
    decreases s.len() + 1 - start,
{
    if 0 <= start < s.len() {
        proof {
            lemma_next_newline(s, start);
        }
        seq![line_at(s, start)] + lines_from(s, next_newline(s, start) + 1)
    } else {
        Seq::empty()
    }
}

/// The lines of a Markdown text.
pub open spec fn markdown_lines(s: Seq<char>) -> Seq<Seq<char>> {
    lines_from(s, 0)
}

/// The kinds of Notion block that the Markdown minutes become.
#[derive(Clone, Copy, Debug, PartialEq, Eq, Structural)]
pub enum BlockKind {
    Heading1,
    Heading2,
    Heading3,
    BulletedListItem,
    Paragraph,
}

/// The name that Notion's API gives a block of kind `kind`.
pub open spec fn block_type_name(kind: BlockKind) -> Seq<char> {
    match kind {
        BlockKind::Heading1 => "heading_1"@,
        BlockKind::Heading2 => "heading_2"@,
        BlockKind::Heading3 => "heading_3"@,
        BlockKind::BulletedListItem => "bulleted_list_item"@,
        BlockKind::Paragraph => "paragraph"@,
    }
}

/// The name that Notion's API gives a block of kind `kind`, as the `type`
/// of the block and the key of its content.
pub fn notion_block_type(kind: BlockKind) -> (res: &'static str)
    ensures
        res@ == block_type_name(kind),
{
    match kind {
        BlockKind::Heading1 => "heading_1",
        BlockKind::Heading2 => "heading_2",
        BlockKind::Heading3 => "heading_3",
        BlockKind::BulletedListItem => "bulleted_list_item",
        BlockKind::Paragraph => "paragraph",
    }
}

/// One Notion block: its kind and its text, cut into rich-text items.
pub struct Block {
    pub kind: BlockKind,
    pub rich_text: Vec<String>,
}

/// `p` is a prefix of `s`.
pub open spec fn starts_with(s: Seq<char>, p: Seq<char>) -> bool {
    p.len() <= s.len() && s.subrange(0, p.len() as int) == p
}

/// The block that one line becomes, with its text; `None` for a blank line.
pub open spec fn line_block(line: Seq<char>) -> Option<(BlockKind, Seq<char>)> {
    let t = trim_end(line);
    if trim(t).len() == 0 {
        None
    } else if starts_with(t, seq!['#', '#', ' ']) {
        Some((BlockKind::Heading2, trim(t.skip(3))))
    } else if starts_with(t, seq!['#', '#', '#', ' ']) {
        Some((BlockKind::Heading3, trim(t.skip(4))))
    } else if starts_with(t, seq!['#', ' ']) {
        Some((BlockKind::Heading1, trim(t.skip(2))))
    } else if starts_with(t, seq!['-', ' ']) {
        Some((BlockKind::BulletedListItem, trim(t.skip(2))))
    } else if starts_with(t, seq!['*', ' ']) {
        Some((BlockKind::BulletedListItem, trim(t.skip(2))))
    } else {
        Some((BlockKind::Paragraph, t))
    }
}

/// The blocks that a sequence of lines becomes, in order.
pub open spec fn blocks_of_lines(lines: Seq<Seq<char>>) -> Seq<(BlockKind, Seq<char>)>
    decreases lines.len(),
{
    if lines.len() == 0 {
        Seq::empty()
    } else {
        let rest = blocks_of_lines(lines.drop_first());
        match line_block(lines[0]) {
            Some(b) => seq![b] + rest,
            None => rest,
        }
    }
}

/// The blocks that a Markdown text becomes: kind and text of each.
pub open spec fn markdown_blocks(s: Seq<char>) -> Seq<(BlockKind, Seq<char>)> {
    blocks_of_lines(markdown_lines(s))
}

/// `b` is the block of kind `kind` whose text is `text`.
pub open spec fn block_is(b: Block, kind: BlockKind, text: Seq<char>) -> bool {
    b.kind == kind && is_rich_text_split(text, string_views(b.rich_text@))
}

fn find_newline(v: &Vec<char>, i: usize) -> (e: usize)
    requires
        i <= v.len(),
    ensures
        e == next_newline(v@, i as int),
{
    let mut j = i;
    while j < v.len() && v[j] != '\n'
        invariant
            i <= j <= v.len(),
            next_newline(v@, i as int) == next_newline(v@, j as int),
        decreases v.len() - j,
    {
        j = j + 1;
    }
    j
}

/// Whether `v@[lo..hi]` begins with `p`.
fn has_prefix(v: &Vec<char>, lo: usize, hi: usize, p: &[char]) -> (res: bool)
    requires
        lo <= hi <= v.len(),
    ensures
        res == starts_with(v@.subrange(lo as int, hi as int), p@),
{
    if p.len() > hi - lo {
        return false;
    }
    let mut k: usize = 0;
    while k < p.len()
        invariant
            p.len() <= hi - lo,
            lo <= hi <= v.len(),
            k <= p.len(),
            forall|j: int| 0 <= j < k ==> v@[lo + j] == p@[j],
        decreases p.len() - k,
    {
        if v[lo + k] != p[k] {
            assert(v@.subrange(lo as int, hi as int).subrange(0, p@.len() as int)[k as int]
                != p@[k as int]);
            return false;
        }
        k = k + 1;
    }
    assert(v@.subrange(lo as int, hi as int).subrange(0, p@.len() as int) =~= p@);
    true
}

/// The block of the line `v@[lo..hi]`, if it is not blank.
fn block_of_line(v: &Vec<char>, lo: usize, hi: usize) -> (res: Option<Block>)
    requires
        lo <= hi <= v.len(),
    ensures
        match line_block(v@.subrange(lo as int, hi as int)) {
            None => res is None,
            Some(b) => res matches Some(r) && block_is(r, b.0, b.1),
        },
{
    let ghost line = v@.subrange(lo as int, hi as int);
    let te = trim_end_at(v, lo, hi);
    let ghost t = v@.subrange(lo as int, te as int);
    let (ts, te2) = trim_at(v, lo, te);
    if ts == te2 {
        return None;
    }
    let (kind, skip) = if has_prefix(v, lo, te, &['#', '#', ' ']) {
        (BlockKind::Heading2, 3)
    } else if has_prefix(v, lo, te, &['#', '#', '#', ' ']) {
        (BlockKind::Heading3, 4)
    } else if has_prefix(v, lo, te, &['#', ' ']) {
        (BlockKind::Heading1, 2)
    } else if has_prefix(v, lo, te, &['-', ' ']) {
        (BlockKind::BulletedListItem, 2)
    } else if has_prefix(v, lo, te, &['*', ' ']) {
        (BlockKind::BulletedListItem, 2)
    } else {
        (BlockKind::Paragraph, 0)
    };
    if skip == 0 {
        Some(Block { kind, rich_text: rich_text_range(v, lo, te) })
    } else {
        assert(t.skip(skip as int) =~= v@.subrange(lo + skip, te as int));
        let (a, b) = trim_at(v, lo + skip, te);
        Some(Block { kind, rich_text: rich_text_range(v, a, b) })
    }
}

/// Turns Markdown minutes into Notion blocks: `# `, `## ` and `### ` lines
/// become headings, `- ` and `* ` lines list items, blank lines nothing, and
/// any other line a paragraph.
pub fn markdown_to_blocks(markdown: &str) -> (res: Vec<Block>)
    ensures
        res.len() == markdown_blocks(markdown@).len(),
        forall|i: int|
            0 <= i < res.len() ==> block_is(
                #[trigger] res[i],
                markdown_blocks(markdown@)[i].0,
                markdown_blocks(markdown@)[i].1,
            ),
{
    let v = chars_of(markdown);
    let ghost s = v@;
    let ghost all = markdown_blocks(s);
    let mut blocks: Vec<Block> = Vec::new();
    let ghost mut done: Seq<(BlockKind, Seq<char>)> = Seq::empty();
    let mut pos: usize = 0;
    while pos < v.len()
        invariant
            s == v@,
            all == markdown_blocks(s),
            pos <= v.len(),
            all == done + blocks_of_lines(lines_from(s, pos as int)),
            blocks.len() == done.len(),
            forall|i: int|
                0 <= i < blocks.len() ==> block_is(#[trigger] blocks[i], done[i].0, done[i].1),
        decreases v.len() - pos,
    {
        let e = find_newline(&v, pos);
        proof {
            lemma_next_newline(s, pos as int);
        }
        let end = if e < v.len() && e > pos && v[e - 1] == '\r' {
            e - 1
        } else {
            e
        };
        let ghost line = line_at(s, pos as int);
        assert(v@.subrange(pos as int, end as int) =~= line);
        let ghost ls = lines_from(s, pos as int);
        assert(ls[0] == line);
        assert(ls.drop_first() =~= lines_from(s, e + 1));
        match block_of_line(&v, pos, end) {
            Some(b) => {
                let ghost bb = line_block(line).unwrap();
                proof {
                    assert(seq![bb] + blocks_of_lines(lines_from(s, e + 1)) == blocks_of_lines(
                        ls,
                    ));
                    assert(done + blocks_of_lines(ls) =~= done.push(bb) + blocks_of_lines(
                        lines_from(s, e + 1),
                    ));
                    done = done.push(bb);
                }
                blocks.push(b);
            },
            None => {},
        }
        if e < v.len() {
            pos = e + 1;
        } else {
            assert(lines_from(s, e + 1) =~= lines_from(s, e as int));
            pos = e;
        }
    }
    assert(lines_from(s, pos as int) =~= Seq::empty());
    assert(done + Seq::<(BlockKind, Seq<char>)>::empty() =~= done);
    blocks
}

/// Putting pieces together: the first piece, then the rest.
pub proof fn lemma_concat_all_first(p: Seq<Seq<char>>)
    requires
        p.len() > 0,
    ensures
        concat_all(p) == p[0] + concat_all(p.drop_first()),
    decreases p.len(),
{
    if p.len() == 1 {
        assert(p.drop_last() =~= Seq::<Seq<char>>::empty());
        assert(p.drop_first() =~= Seq::<Seq<char>>::empty());
        assert(concat_all(p) =~= p[0] + concat_all(p.drop_first()));
    } else {
        lemma_concat_all_first(p.drop_last());
        assert(p.drop_last().drop_first() =~= p.drop_first().drop_last());
        assert(p.drop_first().last() == p.last());
        assert(p.drop_last()[0] == p[0]);
        assert(concat_all(p) =~= p[0] + concat_all(p.drop_first()));
    }
}

/// A prefix is no larger in bytes than the text it begins.
pub proof fn lemma_utf8_len_prefix(s: Seq<char>, n: int)
    requires
        0 <= n <= s.len(),
    ensures
        utf8_len(s.take(n)) <= utf8_len(s),
{
    lemma_utf8_len_concat(s.take(n), s.skip(n));
    assert(s.take(n) + s.skip(n) =~= s);
}

/// `is_rich_text_split`, folded, so that proofs over several splits unfold
/// only what they need.
#[verifier::opaque]
spec fn split_holds(s: Seq<char>, p: Seq<Seq<char>>) -> bool {
    is_rich_text_split(s, p)
}

/// What is left of a split once its first piece is taken off is a split of
/// the rest of the text.
proof fn lemma_split_rest(s: Seq<char>, p: Seq<Seq<char>>)
    requires
        split_holds(s, p),
        p.len() > 1,
    ensures
        s.take(p[0].len() as int) == p[0],
        p[0].len() <= s.len(),
        split_holds(s.skip(p[0].len() as int), p.drop_first()),
{
    reveal(split_holds);
    lemma_concat_all_first(p);
    let r = p.drop_first();
    assert(s.take(p[0].len() as int) =~= p[0]);
    assert(s.skip(p[0].len() as int) =~= concat_all(r));
    assert forall|k: int| 0 <= k < r.len() implies utf8_len(#[trigger] r[k]) <= RICH_TEXT_LIMIT by {
        assert(r[k] == p[k + 1]);
    }
    assert forall|k: int| 1 <= k < r.len() implies (#[trigger] r[k]).len() > 0 && utf8_len(r[k - 1])
        + char_width(r[k][0]) > RICH_TEXT_LIMIT by {
        assert(r[k] == p[k + 1]);
        assert(r[k - 1] == p[k]);
    }
}

/// Where a split has more than one piece, its first piece followed by the
/// next character is a prefix of the text too large for one piece.
proof fn lemma_split_first_full(s: Seq<char>, p: Seq<Seq<char>>)
    requires
        split_holds(s, p),
        p.len() > 1,
    ensures
        0 < p[0].len() < s.len(),
        utf8_len(p[0]) <= RICH_TEXT_LIMIT,
        utf8_len(s.take(p[0].len() as int + 1)) > RICH_TEXT_LIMIT,
        utf8_len(s) > RICH_TEXT_LIMIT,
{
    reveal(split_holds);
    lemma_concat_all_first(p);
    lemma_concat_all_first(p.drop_first());
    let n = p[0].len() as int;
    assert(p[1].len() > 0);
    assert(utf8_len(p[0]) <= RICH_TEXT_LIMIT);
    assert(p.drop_first()[0] == p[1]);
    assert(s[n] == p[1][0]);
    assert(s.take(n + 1) =~= p[0].push(p[1][0]));
    assert(s.take(n + 1).drop_last() =~= p[0]);
    lemma_utf8_len_prefix(s, n + 1);
    if n == 0 {
        assert(p[0] =~= Seq::<char>::empty());
    }
}

proof fn lemma_split_single(s: Seq<char>, p: Seq<Seq<char>>)
    requires
        split_holds(s, p),
        p.len() == 1,
    ensures
        p == seq![s],
        utf8_len(s) <= RICH_TEXT_LIMIT,
{
    reveal(split_holds);
    assert(p.drop_last() =~= Seq::<Seq<char>>::empty());
    assert(concat_all(p.drop_last()) =~= Seq::<char>::empty());
    assert(concat_all(p) =~= p[0]);
    assert(p =~= seq![s]);
}

proof fn lemma_split_first_equal(s: Seq<char>, a: Seq<Seq<char>>, b: Seq<Seq<char>>)
    requires
        split_holds(s, a),
        split_holds(s, b),
        a.len() > 1,
        b.len() > 1,
    ensures
        a[0] == b[0],
{
    lemma_split_rest(s, a);
    lemma_split_rest(s, b);
    lemma_split_first_full(s, a);
    lemma_split_first_full(s, b);
    let na = a[0].len() as int;
    let nb = b[0].len() as int;
    if na < nb {
        assert(s.take(nb).take(na + 1) =~= s.take(na + 1));
        lemma_utf8_len_prefix(s.take(nb), na + 1);
        assert(false);
    } else if nb < na {
        assert(s.take(na).take(nb + 1) =~= s.take(nb + 1));
        lemma_utf8_len_prefix(s.take(na), nb + 1);
        assert(false);
    }
}

proof fn lemma_split_unique(s: Seq<char>, a: Seq<Seq<char>>, b: Seq<Seq<char>>)
    requires
        split_holds(s, a),
        split_holds(s, b),
    ensures
        a == b,
    decreases s.len(),
{
    assert(a.len() >= 1 && b.len() >= 1) by {
        reveal(split_holds);
    }
    if a.len() == 1 {
        lemma_split_single(s, a);
        if b.len() > 1 {
            lemma_split_first_full(s, b);
        } else {
            lemma_split_single(s, b);
        }
    } else if b.len() == 1 {
        lemma_split_single(s, b);
        lemma_split_first_full(s, a);
    } else {
        lemma_split_first_equal(s, a, b);
        lemma_split_rest(s, a);
        lemma_split_rest(s, b);
        lemma_split_first_full(s, a);
        let na = a[0].len() as int;
        lemma_split_unique(s.skip(na), a.drop_first(), b.drop_first());
        assert(a =~= seq![a[0]] + a.drop_first());
        assert(b =~= seq![b[0]] + b.drop_first());
    }
}

/// There is only one way to cut a text into rich-text items: the split that
/// `rich_text` gives is the only one its contract admits.
pub proof fn law_rich_text_split_unique(s: Seq<char>, a: Seq<Seq<char>>, b: Seq<Seq<char>>)
    requires
        is_rich_text_split(s, a),
        is_rich_text_split(s, b),
    ensures
        a == b,
{
    reveal(split_holds);
    lemma_split_unique(s, a, b);
}

proof fn lemma_next_newline_push(t: Seq<char>, i: int)
    requires
        0 <= i <= t.len(),
    ensures
        next_newline(t.push('\n'), i) == next_newline(t, i),
    decreases t.len() - i,
{
    let u = t.push('\n');
    if i < t.len() {
        assert(u[i] == t[i]);
        if t[i] != '\n' {
            lemma_next_newline_push(t, i + 1);
        }
    } else {
        assert(u[i] == '\n');
    }
}

proof fn lemma_line_block_trim_end(a: Seq<char>, b: Seq<char>)
    requires
        trim_end(a) == trim_end(b),
    ensures
        line_block(a) == line_block(b),
{
}

proof fn lemma_blocks_push_newline(t: Seq<char>, i: int)
    requires
        0 <= i <= t.len(),
    ensures
        blocks_of_lines(lines_from(t.push('\n'), i)) == blocks_of_lines(lines_from(t, i)),
    decreases t.len() - i,
{
    let u = t.push('\n');
    lemma_next_newline_push(t, i);
    lemma_next_newline(u, i);
    lemma_next_newline(t, i);
    let e = next_newline(t, i);
    let lu = lines_from(u, i);
    assert(lu[0] == line_at(u, i));
    assert(lu.drop_first() =~= lines_from(u, e + 1));
    if i == t.len() {
        assert(lines_from(t, i) =~= Seq::<Seq<char>>::empty());
        assert(lines_from(u, e + 1) =~= Seq::<Seq<char>>::empty());
        assert(line_at(u, i) =~= Seq::<char>::empty());
        assert(trim_end(Seq::<char>::empty()) =~= Seq::<char>::empty());
        assert(trim(Seq::<char>::empty()) =~= Seq::<char>::empty());
        assert(line_block(line_at(u, i)) is None);
    } else {
        let lt = lines_from(t, i);
        assert(lt[0] == line_at(t, i));
        assert(lt.drop_first() =~= lines_from(t, e + 1));
        assert(u.subrange(i, e) =~= t.subrange(i, e));
        let raw = t.subrange(i, e);
        if e == t.len() && raw.len() > 0 && raw.last() == '\r' {
            assert(trim_end(raw) == trim_end(raw.drop_last()));
            lemma_line_block_trim_end(line_at(u, i), line_at(t, i));
        }
        assert(line_block(line_at(u, i)) == line_block(line_at(t, i)));
        if e < t.len() {
            lemma_blocks_push_newline(t, e + 1);
        } else {
            assert(lines_from(u, e + 1) =~= Seq::<Seq<char>>::empty());
            assert(lines_from(t, e + 1) =~= Seq::<Seq<char>>::empty());
        }
    }
}

/// A line break at the end of the minutes changes nothing: the page gets
/// the same blocks with or without it.
pub proof fn law_final_line_break(s: Seq<char>)
    ensures
        markdown_blocks(s.push('\n')) == markdown_blocks(s),
{
    lemma_blocks_push_newline(s, 0);
}

/// A text that fits in one rich-text item stays whole: its only split is the
/// text itself.
pub proof fn law_short_text_is_one_piece(s: Seq<char>, p: Seq<Seq<char>>)
    requires
        utf8_len(s) <= RICH_TEXT_LIMIT,
        is_rich_text_split(s, p),
    ensures
        p == seq![s],
{
    let one = seq![s];
    assert(one.drop_last() =~= Seq::<Seq<char>>::empty());
    assert(concat_all(one.drop_last()) =~= Seq::<char>::empty());
    assert(concat_all(one) =~= s);
    assert(is_rich_text_split(s, one));
    law_rich_text_split_unique(s, p, one);
}

proof fn lemma_trim_end_last(s: Seq<char>)
    ensures
        trim_end(s).len() > 0 ==> !is_ws(trim_end(s).last()),
        trim_end(s).len() <= s.len(),
    decreases s.len(),
{
    if s.len() > 0 && is_ws(s.last()) {
        lemma_trim_end_last(s.drop_last());
    }
}

proof fn lemma_trim_keeps_last(s: Seq<char>)
    requires
        s.len() > 0,
        !is_ws(s.last()),
    ensures
        trim(s).len() > 0,
{
    assert(trim_end(s) == s);
    lemma_trim_start_nonempty(s);
}

proof fn lemma_trim_start_nonempty(s: Seq<char>)
    requires
        s.len() > 0,
        !is_ws(s.last()),
    ensures
        trim_start(s).len() > 0,
    decreases s.len(),
{
    if is_ws(s[0]) {
        assert(s.len() > 1);
        assert(s.drop_first().last() == s.last());
        lemma_trim_start_nonempty(s.drop_first());
    }
}

proof fn lemma_skip_keeps_last(t: Seq<char>, n: int)
    requires
        0 <= n < t.len(),
        !is_ws(t.last()),
    ensures
        trim(t.skip(n)).len() > 0,
{
    assert(t.skip(n).last() == t.last());
    lemma_trim_keeps_last(t.skip(n));
}

/// Every block a line becomes has some text: blank lines become no block,
/// and a heading or list marker is never taken with nothing after it.
pub proof fn law_block_text_nonempty(line: Seq<char>)
    ensures
        line_block(line) is Some ==> line_block(line).unwrap().1.len() > 0,
{
    let t = trim_end(line);
    lemma_trim_end_last(line);
    if trim(t).len() > 0 {
        assert(t.len() > 0) by {
            if t.len() == 0 {
                assert(trim_end(t) =~= t);
                assert(trim_start(t) =~= t);
            }
        }
        let l3 = seq!['#', '#', ' '];
        let l4 = seq!['#', '#', '#', ' '];
        let l2h = seq!['#', ' '];
        let l2d = seq!['-', ' '];
        let l2s = seq!['*', ' '];
        if starts_with(t, l3) {
            assert(t.len() > 3) by {
                if t.len() == 3 {
                    assert(t.last() == t.subrange(0, 3)[2]);
                }
            }
            lemma_skip_keeps_last(t, 3);
        } else if starts_with(t, l4) {
            assert(t.len() > 4) by {
                if t.len() == 4 {
                    assert(t.last() == t.subrange(0, 4)[3]);
                }
            }
            lemma_skip_keeps_last(t, 4);
        } else if starts_with(t, l2h) || starts_with(t, l2d) || starts_with(t, l2s) {
            assert(t.len() > 2) by {
                if t.len() == 2 {
                    assert(t.last() == t.subrange(0, 2)[1]);
                }
            }
            lemma_skip_keeps_last(t, 2);
        }
    }
}

proof fn lemma_blocks_nonempty(lines: Seq<Seq<char>>)
    ensures
        forall|i: int|
            0 <= i < blocks_of_lines(lines).len() ==> (#[trigger] blocks_of_lines(lines)[i]).1.len()
                > 0,
    decreases lines.len(),
{
    if lines.len() > 0 {
        lemma_blocks_nonempty(lines.drop_first());
        law_block_text_nonempty(lines[0]);
        let rest = blocks_of_lines(lines.drop_first());
        match line_block(lines[0]) {
            Some(b) => {
                assert forall|i: int|
                    0 <= i < blocks_of_lines(lines).len() implies (#[trigger] blocks_of_lines(
                    lines,
                )[i]).1.len() > 0 by {
                    if i > 0 {
                        assert(blocks_of_lines(lines)[i] == rest[i - 1]);
                    }
                }
            },
            None => {},
        }
    }
}

/// No block of a page is empty: each holds some text.
pub proof fn law_blocks_have_text(s: Seq<char>)
    ensures
        forall|i: int|
            0 <= i < markdown_blocks(s).len() ==> (#[trigger] markdown_blocks(s)[i]).1.len() > 0,
{
    lemma_blocks_nonempty(markdown_lines(s));
}

proof fn lemma_next_newline_prefix(p: Seq<char>, q: Seq<char>, i: int)
    requires
        0 <= i <= p.len(),
        next_newline(p, i) < p.len(),
    ensures
        next_newline(p + q, i) == next_newline(p, i),
    decreases p.len() - i,
{
    assert((p + q)[i] == p[i]);
    if p[i] != '\n' {
        lemma_next_newline_prefix(p, q, i + 1);
    }
}

proof fn lemma_next_newline_shift(p: Seq<char>, b: Seq<char>, j: int)
    requires
        0 <= j <= b.len(),
    ensures
        next_newline(p + b, p.len() + j) == p.len() + next_newline(b, j),
    decreases b.len() - j,
{
    if j < b.len() {
        assert((p + b)[p.len() + j] == b[j]);
        if b[j] != '\n' {
            lemma_next_newline_shift(p, b, j + 1);
        }
    }
}

proof fn lemma_lines_shift(p: Seq<char>, b: Seq<char>, j: int)
    requires
        0 <= j,
    ensures
        lines_from(p + b, p.len() + j) == lines_from(b, j),
    decreases b.len() + 1 - j,
{
    let u = p + b;
    if j < b.len() {
        lemma_next_newline_shift(p, b, j);
        lemma_next_newline(b, j);
        let e = next_newline(b, j);
        assert(u.subrange(p.len() + j, p.len() + e) =~= b.subrange(j, e));
        assert(line_at(u, p.len() + j) == line_at(b, j));
        lemma_lines_shift(p, b, e + 1);
    } else {
        assert(lines_from(u, p.len() + j) =~= Seq::<Seq<char>>::empty());
        assert(lines_from(b, j) =~= Seq::<Seq<char>>::empty());
    }
}

proof fn lemma_blocks_concat(a: Seq<char>, b: Seq<char>, i: int)
    requires
        0 <= i <= a.len(),
    ensures
        blocks_of_lines(lines_from(a.push('\n') + b, i)) == blocks_of_lines(lines_from(a, i))
            + blocks_of_lines(lines_from(b, 0)),
    decreases a.len() - i,
{
    let p = a.push('\n');
    let u = p + b;
    let rb = blocks_of_lines(lines_from(b, 0));
    lemma_next_newline_push(a, i);
    lemma_next_newline(a, i);
    let e = next_newline(a, i);
    lemma_next_newline_prefix(p, b, i);
    lemma_lines_shift(p, b, 0);
    assert(p.len() + 0 == a.len() + 1);
    let lu = lines_from(u, i);
    assert(lu[0] == line_at(u, i));
    assert(lu.drop_first() =~= lines_from(u, e + 1));
    if i == a.len() {
        assert(lines_from(a, i) =~= Seq::<Seq<char>>::empty());
        assert(line_at(u, i) =~= Seq::<char>::empty());
        assert(trim_end(Seq::<char>::empty()) =~= Seq::<char>::empty());
        assert(trim(Seq::<char>::empty()) =~= Seq::<char>::empty());
        assert(line_block(line_at(u, i)) is None);
        assert(Seq::<(BlockKind, Seq<char>)>::empty() + rb =~= rb);
    } else {
        let la = lines_from(a, i);
        assert(la[0] == line_at(a, i));
        assert(la.drop_first() =~= lines_from(a, e + 1));
        assert(u.subrange(i, e) =~= a.subrange(i, e));
        let raw = a.subrange(i, e);
        if e == a.len() && raw.len() > 0 && raw.last() == '\r' {
            assert(trim_end(raw) == trim_end(raw.drop_last()));
            lemma_line_block_trim_end(line_at(u, i), line_at(a, i));
        }
        assert(line_block(line_at(u, i)) == line_block(line_at(a, i)));
        if e < a.len() {
            lemma_blocks_concat(a, b, e + 1);
        } else {
            assert(lines_from(a, e + 1) =~= Seq::<Seq<char>>::empty());
            assert(Seq::<(BlockKind, Seq<char>)>::empty() + rb =~= rb);
        }
        let ra = blocks_of_lines(lines_from(a, e + 1));
        match line_block(line_at(a, i)) {
            Some(bk) => {
                assert(seq![bk] + (ra + rb) =~= (seq![bk] + ra) + rb);
            },
            None => {},
        }
    }
}

/// Minutes are turned into blocks line by line: the blocks of two texts
/// joined by a line break are the blocks of the first followed by those of
/// the second.
pub proof fn law_blocks_of_joined_text(a: Seq<char>, b: Seq<char>)
    ensures
        markdown_blocks(a.push('\n') + b) == markdown_blocks(a) + markdown_blocks(b),
{
    lemma_blocks_concat(a, b, 0);
}

/// Measured in real bytes (the UTF-8 encoding), every rich-text item is at
/// most 2000 bytes, and every item but the last is followed by a character
/// whose bytes would not have fitted.
pub proof fn law_rich_text_pieces_in_bytes(s: Seq<char>, p: Seq<Seq<char>>)
    requires
        is_rich_text_split(s, p),
    ensures
        forall|k: int|
            0 <= k < p.len() ==> vstd::utf8::encode_utf8(#[trigger] p[k]).len() <= RICH_TEXT_LIMIT,
        forall|k: int|
            1 <= k < p.len() ==> (#[trigger] p[k]).len() > 0 && vstd::utf8::encode_utf8(p[k - 1]).len()
                + vstd::utf8::encode_scalar(p[k][0] as u32).len() > RICH_TEXT_LIMIT,
        vstd::utf8::encode_utf8(concat_all(p)) == vstd::utf8::encode_utf8(s),
{
    assert forall|k: int| 0 <= k < p.len() implies vstd::utf8::encode_utf8(#[trigger] p[k]).len()
        <= RICH_TEXT_LIMIT by {
        law_utf8_len_is_byte_length(p[k]);
    }
    assert forall|k: int| 1 <= k < p.len() implies (#[trigger] p[k]).len() > 0
        && vstd::utf8::encode_utf8(p[k - 1]).len() + vstd::utf8::encode_scalar(p[k][0] as u32).len()
        > RICH_TEXT_LIMIT by {
        law_utf8_len_is_byte_length(p[k - 1]);
        law_char_width_is_encoding_length(p[k][0]);
    }
}

} // verus!
