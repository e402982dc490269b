use unicode_segmentation::UnicodeSegmentation;
use vstd::prelude::*;
use crate::util::strings::{
    lemma_encode_utf8_concat, append_all, byte_len, chars_of, string_from_chars, utf8_width, lemma_utf8_len_concat, push_repeated, repeated, utf8_len,
};
use vstd::string::*;

verus! {

/// The extended grapheme clusters of a text, as `unicode_segmentation` splits it.
pub uninterp spec fn grapheme_clusters(text: Seq<char>) -> Seq<Seq<char>>;

/// Calls `UnicodeSegmentation::graphemes(text, true)` and collects the clusters.
/// Claimed: the clusters are the named result `grapheme_clusters(text)`, each is
/// non-empty, and together, in order, they make up the text (the iterator hands out
/// consecutive non-empty slices of the text, from its start to its end).
#[verifier::external_body]
fn graphemes_of(text: &str) -> (clusters: Vec<String>)
    ensures
        clusters@.map_values(|g: String| g@) == grapheme_clusters(text@),
        clusters@.map_values(|g: String| g@).flatten() == text@,
        forall|i: int| 0 <= i < clusters.len() ==> (#[trigger] clusters@[i])@.len() > 0,
{
    text.graphemes(true).map(|g| g.to_string()).collect()
}

/// Number of extended grapheme clusters in `s`.
pub fn count_grapheme_clusters(s: &str) -> (count: usize)
    ensures
        count == grapheme_clusters(s@).len(),
        grapheme_clusters(s@).flatten() == s@,
{
    let clusters = graphemes_of(s);
    clusters.len()
}


/// The text made of the clusters `clusters[from..to]`.
pub open spec fn joined(clusters: Seq<Seq<char>>, from: int, to: int) -> Seq<char> {
    clusters.subrange(from, to).flatten()
}

/// The text of the clusters `[i, k)` is that of `[i, j)` followed by that of `[j, k)`.
pub proof fn lemma_joined_split(g: Seq<Seq<char>>, i: int, j: int, k: int)
    requires
        0 <= i <= j <= k <= g.len(),
    ensures
        joined(g, i, k) == joined(g, i, j) + joined(g, j, k),
{
    assert(g.subrange(i, k) =~= g.subrange(i, j) + g.subrange(j, k));
    vstd::seq_lib::lemma_flatten_concat(g.subrange(i, j), g.subrange(j, k));
}

/// The text of the single cluster `i`.
pub proof fn lemma_joined_one(g: Seq<Seq<char>>, i: int)
    requires
        0 <= i < g.len(),
    ensures
        joined(g, i, i + 1) == g[i],
{
    assert(g.subrange(i, i + 1).len() == 1);
    g.subrange(i, i + 1).lemma_flatten_singleton();
}

/// A prefix of the clusters is a prefix of the text; its bytes are a prefix of the text's.
proof fn lemma_joined_prefix(g: Seq<Seq<char>>, j: int)
    requires
        0 <= j <= g.len(),
    ensures
        joined(g, 0, j).len() <= joined(g, 0, g.len() as int).len(),
        utf8_len(joined(g, 0, j)) <= utf8_len(joined(g, 0, g.len() as int)),
        joined(g, 0, g.len() as int) == g.flatten(),
{
    lemma_joined_split(g, 0, j, g.len() as int);
    lemma_utf8_len_concat(joined(g, 0, j), joined(g, j, g.len() as int));
    assert(g.subrange(0, g.len() as int) =~= g);
}

/// The number of bytes of the clusters before cluster `index`.
fn cluster_byte_offset(clusters: &Vec<String>, index: usize, Ghost(total): Ghost<nat>) -> (offset: usize)
    requires
        index <= clusters.len(),
        utf8_len(clusters@.map_values(|c: String| c@).flatten()) == total,
        total <= usize::MAX,
    ensures
        offset == utf8_len(joined(clusters@.map_values(|c: String| c@), 0, index as int)),
{
    let ghost g = clusters@.map_values(|c: String| c@);
    let mut offset: usize = 0;
    let mut i: usize = 0;
    assert(joined(g, 0, 0) =~= Seq::<char>::empty());
    while i < index
        invariant
            i <= index <= clusters.len(),
            g == clusters@.map_values(|c: String| c@),
            utf8_len(g.flatten()) == total,
            total <= usize::MAX,
            offset == utf8_len(joined(g, 0, i as int)),
        decreases index - i,
    {
        proof {
            lemma_joined_split(g, 0, i as int, i + 1);
            lemma_joined_one(g, i as int);
            lemma_utf8_len_concat(joined(g, 0, i as int), g[i as int]);
            lemma_joined_prefix(g, i + 1);
        }
        offset = offset + byte_len(clusters[i].as_str());
        i = i + 1;
    }
    offset
}

/// The byte index at which grapheme cluster `index` of `s` begins, or `None` when `s`
/// has no more than `index` clusters.
pub fn find_byte_index_of_grapheme(s: &str, index: usize) -> (found: Option<usize>)
    ensures
        ({
            let g = grapheme_clusters(s@);
            match found {
                Some(b) => index < g.len() && b == utf8_len(joined(g, 0, index as int)),
                None => index >= g.len(),
            }
        }),
{
    let clusters = graphemes_of(s);
    let total = byte_len(s);
    if index >= clusters.len() {
        return None;
    }
    Some(cluster_byte_offset(&clusters, index, Ghost(total as nat)))
}

/// The byte index just after grapheme cluster `n` of `s`, or `None` when `s` has no
/// more than `n` clusters.
pub fn find_index_after_nth_grapheme(s: &str, n: usize) -> (found: Option<usize>)
    requires
        n < usize::MAX,
    ensures
        ({
            let g = grapheme_clusters(s@);
            match found {
                Some(b) => n < g.len() && b == utf8_len(joined(g, 0, n + 1)),
                None => n >= g.len(),
            }
        }),
{
    let clusters = graphemes_of(s);
    let total = byte_len(s);
    if clusters.len() <= n {
        return None;
    }
    Some(cluster_byte_offset(&clusters, n + 1, Ghost(total as nat)))
}

/// The byte index at which grapheme cluster `n` of `s` begins. Of an empty string,
/// cluster 0 begins at 0; otherwise `None` when `s` has no more than `n` clusters.
pub fn nth_grapheme_cluster_byte_index(s: &str, n: usize) -> (found: Option<usize>)
    ensures
        ({
            let g = grapheme_clusters(s@);
            match found {
                Some(b) => if n < g.len() {
                    b == utf8_len(joined(g, 0, n as int))
                } else {
                    n == 0 && b == 0
                },
                None => n >= g.len() && n != 0,
            }
        }),
{
    let clusters = graphemes_of(s);
    let total = byte_len(s);
    if n < clusters.len() {
        Some(cluster_byte_offset(&clusters, n, Ghost(total as nat)))
    } else if n == 0 {
        Some(0)
    } else {
        None
    }
}

/// The positions, in order, at which `brk` occurs in `items`.
pub open spec fn breaks_in<T>(items: Seq<T>, brk: T) -> Seq<int>
    decreases items.len(),
{
    if items.len() == 0 {
        Seq::empty()
    } else {
        let before = breaks_in(items.drop_last(), brk);
        if items.last() == brk {
            before.push(items.len() - 1)
        } else {
            before
        }
    }
}

/// The item range `[start, end)` of line `n` of `items`, lines being separated by
/// `brk`: `None` for empty `items`, for a line past the last one, and for the empty
/// line after a final `brk`.
pub open spec fn nth_line_range<T>(items: Seq<T>, brk: T, n: int) -> Option<(int, int)> {
    let p = breaks_in(items, brk);
    let start = if n == 0 { 0 } else { p[n - 1] + 1 };
    if items.len() == 0 {
        None
    } else if n < p.len() {
        Some((start, p[n]))
    } else if n == p.len() && items.last() != brk {
        Some((start, items.len() as int))
    } else {
        None
    }
}

/// Positions of breaks are increasing and lie inside the items.
proof fn lemma_breaks_in_bounds<T>(items: Seq<T>, brk: T)
    ensures
        forall|i: int| 0 <= i < breaks_in(items, brk).len() ==> 0 <= #[trigger] breaks_in(items, brk)[i] < items.len(),
        forall|i: int, j: int| 0 <= i < j < breaks_in(items, brk).len() ==> breaks_in(items, brk)[i] < breaks_in(items, brk)[j],
        breaks_in(items, brk).len() <= items.len(),
    decreases items.len(),
{
    if items.len() > 0 {
        lemma_breaks_in_bounds(items.drop_last(), brk);
    }
}

/// A line's range lies within the items, its start not after its end.
pub proof fn lemma_nth_line_range_ordered<T>(items: Seq<T>, brk: T, n: int)
    requires
        0 <= n,
    ensures
        nth_line_range(items, brk, n) matches Some((a, b)) ==> 0 <= a <= b <= items.len(),
{
    lemma_breaks_in_bounds(items, brk);
    let p = breaks_in(items, brk);
    if n > 0 && n <= p.len() && items.len() > 0 {
        assert(p[n - 1] < items.len());
        if n < p.len() {
            assert(p[n - 1] < p[n]);
        }
    }
    if n == 0 && p.len() > 0 {
        assert(0 <= p[0]);
    }
}

/// Breaks are found the same way in two sequences that agree on where they break.
proof fn lemma_breaks_in_flags<T>(items: Seq<T>, brk: T, flags: Seq<bool>)
    requires
        flags.len() == items.len(),
        forall|i: int| 0 <= i < items.len() ==> flags[i] == (items[i] == brk),
    ensures
        breaks_in(items, brk) == breaks_in(flags, true),
        nth_line_range(items, brk, 0) == nth_line_range(flags, true, 0),
        forall|n: int| nth_line_range(items, brk, n) == #[trigger] nth_line_range(flags, true, n),
    decreases items.len(),
{
    if items.len() > 0 {
        lemma_breaks_in_flags(items.drop_last(), brk, flags.drop_last());
        assert(flags.last() == (items.last() == brk));
    }
}

/// The positions of the `true` entries of `flags`.
fn break_positions(flags: &Vec<bool>) -> (p: Vec<usize>)
    ensures
        p@.map_values(|x: usize| x as int) == breaks_in(flags@, true),
{
    let mut p: Vec<usize> = Vec::new();
    let mut i: usize = 0;
    assert(flags@.take(0) =~= Seq::<bool>::empty());
    while i < flags.len()
        invariant
            i <= flags.len(),
            p@.map_values(|x: usize| x as int) == breaks_in(flags@.take(i as int), true),
        decreases flags.len() - i,
    {
        assert(flags@.take(i + 1).drop_last() =~= flags@.take(i as int));
        if flags[i] {
            p.push(i);
            assert(p@.map_values(|x: usize| x as int) =~= breaks_in(flags@.take(i as int), true).push(i as int));
        }
        i = i + 1;
    }
    assert(flags@.take(flags.len() as int) =~= flags@);
    p
}

/// The item range of line `n` of `flags`, lines being separated by `true` entries.
fn line_range_of_flags(flags: &Vec<bool>, n: usize) -> (r: Option<(usize, usize)>)
    ensures
        match r {
            Some((a, b)) => nth_line_range(flags@, true, n as int) == Some((a as int, b as int)),
            None => nth_line_range(flags@, true, n as int) is None,
        },
{
    let p = break_positions(flags);
    proof {
        lemma_breaks_in_bounds(flags@, true);
    }
    let ghost pv = p@.map_values(|x: usize| x as int);
    assert(forall|i: int| 0 <= i < p.len() ==> pv[i] == p@[i] as int);
    if flags.len() == 0 {
        return None;
    }
    if n > p.len() {
        return None;
    }
    let start: usize = if n == 0 { 0 } else { p[n - 1] + 1 };
    if n < p.len() {
        Some((start, p[n]))
    } else if !flags[flags.len() - 1] {
        Some((start, flags.len()))
    } else {
        None
    }
}

/// The range `[start, end)` of grapheme-cluster indices of line `n` of `s`, a line
/// ending at a cluster that is exactly a newline. `None` for an empty `s`, for a line
/// past the last, and for the empty line after a final newline.
pub fn find_nth_line_grapheme_range(s: &str, n: usize) -> (found: Option<(usize, usize)>)
    ensures
        ({
            let r = nth_line_range(grapheme_clusters(s@), seq!['\n'], n as int);
            match found {
                Some((a, b)) => r == Some((a as int, b as int)),
                None => r is None,
            }
        }),
{
    let clusters = graphemes_of(s);
    let ghost g = clusters@.map_values(|c: String| c@);
    let mut flags: Vec<bool> = Vec::new();
    let mut i: usize = 0;
    while i < clusters.len()
        invariant
            i <= clusters.len(),
            g == clusters@.map_values(|c: String| c@),
            flags.len() == i,
            forall|j: int| 0 <= j < i ==> flags@[j] == (g[j] == seq!['\n']),
        decreases clusters.len() - i,
    {
        let c = clusters[i].as_str();
        let is_newline = c.unicode_len() == 1 && c.get_char(0) == '\n';
        proof {
            if is_newline {
                assert(g[i as int] =~= seq!['\n']);
            }
            if g[i as int] == seq!['\n'] {
                assert(g[i as int].len() == 1 && g[i as int][0] == '\n');
            }
        }
        flags.push(is_newline);
        i = i + 1;
    }
    proof {
        lemma_breaks_in_flags(g, seq!['\n'], flags@);
    }
    line_range_of_flags(&flags, n)
}

/// The number of bytes of the first `k` characters.
fn char_byte_offset(chars: &Vec<char>, k: usize, Ghost(total): Ghost<nat>) -> (offset: usize)
    requires
        k <= chars.len(),
        utf8_len(chars@) == total,
        total <= usize::MAX,
    ensures
        offset == utf8_len(chars@.take(k as int)),
{
    let mut offset: usize = 0;
    let mut i: usize = 0;
    assert(chars@.take(0) =~= Seq::<char>::empty());
    while i < k
        invariant
            i <= k <= chars.len(),
            utf8_len(chars@) == total,
            total <= usize::MAX,
            offset == utf8_len(chars@.take(i as int)),
        decreases k - i,
    {
        proof {
            assert(chars@.take(i + 1) =~= chars@.take(i as int) + seq![chars@[i as int]]);
            lemma_utf8_len_concat(chars@.take(i as int), seq![chars@[i as int]]);
            assert(chars@ =~= chars@.take(i + 1) + chars@.skip(i + 1));
            lemma_utf8_len_concat(chars@.take(i + 1), chars@.skip(i + 1));
        }
        offset = offset + utf8_width(chars[i]);
        i = i + 1;
    }
    offset
}

/// The byte range `[start, end)` of line `n` of `s`, lines ending at newline
/// characters. `None` for an empty `s`, for a line past the last, and for the empty
/// line after a final newline.
pub fn find_nth_line_byte_range(s: &str, n: usize) -> (found: Option<(usize, usize)>)
    ensures
        match nth_line_range(s@, '\n', n as int) {
            Some((a, b)) => found matches Some((x, y)) && x == utf8_len(s@.take(a)) && y == utf8_len(s@.take(b)),
            None => found is None,
        },
{
    let chars = chars_of(s);
    let total = byte_len(s);
    let mut flags: Vec<bool> = Vec::new();
    let mut i: usize = 0;
    while i < chars.len()
        invariant
            i <= chars.len(),
            flags.len() == i,
            forall|j: int| 0 <= j < i ==> flags@[j] == (chars@[j] == '\n'),
        decreases chars.len() - i,
    {
        flags.push(chars[i] == '\n');
        i = i + 1;
    }
    proof {
        lemma_breaks_in_flags(chars@, '\n', flags@);
    }
    match line_range_of_flags(&flags, n) {
        Some((a, b)) => {
            proof {
                lemma_breaks_in_bounds(chars@, '\n');
            }
            let x = char_byte_offset(&chars, a, Ghost(total as nat));
            let y = char_byte_offset(&chars, b, Ghost(total as nat));
            Some((x, y))
        },
        None => None,
    }
}

/// The first position at or after `from` at which `brk` occurs in `items`, or the
/// length of `items` when there is none.
pub open spec fn first_from<T>(items: Seq<T>, brk: T, from: int) -> int
    decreases items.len() - from,
{
    if from >= items.len() {
        items.len() as int
    } else if items[from] == brk {
        from
    } else {
        first_from(items, brk, from + 1)
    }
}

/// What `first_from` finds: the first `brk` at or after `from`.
proof fn lemma_first_from<T>(items: Seq<T>, brk: T, from: int, i: int)
    requires
        0 <= from <= i <= items.len(),
        forall|j: int| from <= j < i ==> items[j] != brk,
        i == items.len() || items[i] == brk,
    ensures
        first_from(items, brk, from) == i,
    decreases i - from,
{
    if from < i {
        lemma_first_from(items, brk, from + 1, i);
    }
}

/// The part of `s` from byte `byte_index` up to, not including, the next newline (or
/// the end of `s`).
pub fn slice_to_newline(s: &str, byte_index: usize) -> (line: &str)
    requires
        byte_index <= s.spec_bytes().len(),
        vstd::utf8::is_char_boundary(s.spec_bytes(), byte_index as int),
    ensures
        line.spec_bytes() == s.spec_bytes().subrange(
            byte_index as int,
            first_from(s.spec_bytes(), 10u8, byte_index as int),
        ),
{
    broadcast use vstd::slice::group_slice_axioms;

    proof {
        vstd::utf8::encode_utf8_valid_utf8(s@);
    }
    let (_head, tail) = s.split_at(byte_index);
    let bytes = tail.as_bytes();
    let mut i: usize = 0;
    while i < bytes.len() && bytes[i] != 10u8
        invariant
            i <= bytes@.len(),
            bytes@ == tail.spec_bytes(),
            forall|j: int| 0 <= j < i ==> bytes@[j] != 10u8,
        decreases bytes@.len() - i,
    {
        i = i + 1;
    }
    proof {
        vstd::utf8::encode_utf8_valid_utf8(tail@);
        if i < bytes@.len() {
            vstd::utf8::is_char_boundary_iff_not_is_continuation_byte(tail.spec_bytes(), i as int);
        } else {
            vstd::utf8::is_char_boundary_start_end_of_seq(tail.spec_bytes());
        }
        let whole = s.spec_bytes();
        assert forall|j: int| byte_index <= j < byte_index + i implies whole[j] != 10u8 by {
            assert(whole[j] == bytes@[j - byte_index]);
        }
        if i < bytes@.len() {
            assert(whole[byte_index + i] == bytes@[i as int]);
        }
        lemma_first_from(whole, 10u8, byte_index as int, byte_index + i);
    }
    let (line, _rest) = tail.split_at(i);
    proof {
        assert(line.spec_bytes() =~= s.spec_bytes().subrange(byte_index as int, byte_index + i));
    }
    line
}

/// The number of characters of the clusters before cluster `index`.
fn cluster_char_offset(clusters: &Vec<String>, index: usize, Ghost(total): Ghost<nat>) -> (offset: usize)
    requires
        index <= clusters.len(),
        clusters@.map_values(|c: String| c@).flatten().len() == total,
        total <= usize::MAX,
    ensures
        offset == joined(clusters@.map_values(|c: String| c@), 0, index as int).len(),
{
    let ghost g = clusters@.map_values(|c: String| c@);
    let mut offset: usize = 0;
    let mut i: usize = 0;
    assert(joined(g, 0, 0) =~= Seq::<char>::empty());
    while i < index
        invariant
            i <= index <= clusters.len(),
            g == clusters@.map_values(|c: String| c@),
            g.flatten().len() == total,
            total <= usize::MAX,
            offset == joined(g, 0, i as int).len(),
        decreases index - i,
    {
        proof {
            lemma_joined_split(g, 0, i as int, i + 1);
            lemma_joined_one(g, i as int);
            lemma_joined_prefix(g, i + 1);
        }
        offset = offset + clusters[i].as_str().unicode_len();
        i = i + 1;
    }
    offset
}

/// The text `chars[0..from]`, then `inserted`, then `chars[to..]`.
fn splice_chars(chars: &Vec<char>, from: usize, to: usize, inserted: &str) -> (s: String)
    requires
        from <= to <= chars.len(),
    ensures
        s@ == chars@.take(from as int) + inserted@ + chars@.skip(to as int),
{
    let mut s = string_from_chars(chars, 0, from);
    s.append(inserted);
    let rest = string_from_chars(chars, to, chars.len());
    s.append(rest.as_str());
    assert(s@ =~= chars@.take(from as int) + inserted@ + chars@.skip(to as int));
    s
}

/// The character index at which grapheme cluster `i` of `text` begins, or the end of
/// `text` when it has no more than `i` clusters.
pub open spec fn grapheme_start(text: Seq<char>, i: int) -> int {
    let g = grapheme_clusters(text);
    if i < g.len() {
        joined(g, 0, i).len() as int
    } else {
        text.len() as int
    }
}

/// The rest of the line of `text` from grapheme cluster `i` on, without its newline.
pub open spec fn line_from(text: Seq<char>, i: int) -> Seq<char> {
    let start = grapheme_start(text, i);
    text.subrange(start, first_from(text, '\n', start))
}

/// Whether `replace_graphemes_until_newline` finds the end of what it replaces: when
/// `source` has fewer clusters than the rest of the line, the text must have a cluster
/// that many clusters after cluster `g_index`.
pub open spec fn replace_fits(text: Seq<char>, g_index: int, source: Seq<char>) -> bool {
    let k = grapheme_clusters(source).len();
    k < grapheme_clusters(line_from(text, g_index)).len() ==> g_index + k < grapheme_clusters(text).len()
}

/// The text after `replace_graphemes_until_newline`: from cluster `g_index` on, `source`
/// takes the place of as many clusters as it has, or of the whole rest of the line when
/// it has at least as many clusters as that rest.
pub open spec fn replaced_until_newline(text: Seq<char>, g_index: int, source: Seq<char>) -> Seq<char> {
    let start = grapheme_start(text, g_index);
    let k = grapheme_clusters(source).len();
    let m = grapheme_clusters(line_from(text, g_index)).len();
    let end = if k >= m {
        first_from(text, '\n', start)
    } else {
        joined(grapheme_clusters(text), 0, g_index + k).len() as int
    };
    text.take(start) + source + text.skip(end)
}

/// The cluster position at which the rest of the line from cluster `g_index` ends:
/// where that rest starts (`g_index`, or the number of clusters when the text has no
/// more) and as many clusters on as the rest holds.
pub open spec fn line_end_cluster(text: Seq<char>, g_index: int) -> int {
    let g = grapheme_clusters(text);
    let s = if g_index < g.len() { g_index } else { g.len() as int };
    s + grapheme_clusters(line_from(text, g_index)).len()
}

/// What `replace_graphemes_until_newline` reports: where `source` has more clusters
/// than the rest of the line, the end of that line (as a cluster position) and the
/// number of clusters the line grew by; `None` where it has as many or fewer.
pub open spec fn replace_report(text: Seq<char>, g_index: int, source: Seq<char>) -> Option<(int, int)> {
    let k = grapheme_clusters(source).len();
    let m = grapheme_clusters(line_from(text, g_index)).len();
    if k > m {
        Some((line_end_cluster(text, g_index), k - m))
    } else {
        None
    }
}

/// Clusters that are none of them empty hold at least one character each.
proof fn lemma_flatten_len_ge(g: Seq<Seq<char>>)
    requires
        forall|i: int| 0 <= i < g.len() ==> (#[trigger] g[i]).len() > 0,
    ensures
        g.flatten().len() >= g.len(),
    decreases g.len(),
{
    if g.len() > 0 {
        assert forall|i: int| 0 <= i < g.drop_first().len() implies (#[trigger] g.drop_first()[i]).len() > 0 by {
            assert(g.drop_first()[i] == g[i + 1]);
        }
        lemma_flatten_len_ge(g.drop_first());
    }
}

/// The clusters and characters of `text`, with the character range of the rest of its
/// line from cluster `g_index` on (without the newline), the number of clusters in
/// that rest, and the cluster position at which it ends.
fn line_rest(text: &str, g_index: usize) -> (r: (Vec<String>, Vec<char>, usize, usize, usize, usize))
    ensures
        r.0@.map_values(|c: String| c@) == grapheme_clusters(text@),
        r.0@.map_values(|c: String| c@).flatten() == text@,
        r.1@ == text@,
        r.2 == grapheme_start(text@, g_index as int),
        r.3 == first_from(text@, '\n', r.2 as int),
        r.2 <= r.3 <= text@.len(),
        r.4 == grapheme_clusters(line_from(text@, g_index as int)).len(),
        r.5 == line_end_cluster(text@, g_index as int),
{
    let clusters = graphemes_of(text);
    let ghost g = clusters@.map_values(|c: String| c@);
    let chars = chars_of(text);
    proof {
        lemma_joined_prefix(g, g.len() as int);
    }
    let start: usize = if g_index < clusters.len() {
        cluster_char_offset(&clusters, g_index, Ghost(chars.len() as nat))
    } else {
        chars.len()
    };
    let first: usize = if g_index < clusters.len() { g_index } else { clusters.len() };
    proof {
        if g_index < clusters.len() {
            lemma_joined_prefix(g, g_index as int);
            assert forall|i: int| 0 <= i < g.subrange(0, g_index as int).len() implies (#[trigger] g.subrange(
                0,
                g_index as int,
            )[i]).len() > 0 by {
                assert(g.subrange(0, g_index as int)[i] == g[i]);
                assert(clusters@[i]@.len() > 0);
            }
            lemma_flatten_len_ge(g.subrange(0, g_index as int));
        } else {
            assert forall|i: int| 0 <= i < g.len() implies (#[trigger] g[i]).len() > 0 by {
                assert(clusters@[i]@.len() > 0);
            }
            lemma_flatten_len_ge(g);
        }
    }
    let mut end = start;
    while end < chars.len() && chars[end] != '\n'
        invariant
            start <= end <= chars.len(),
            forall|j: int| start <= j < end ==> chars@[j] != '\n',
        decreases chars.len() - end,
    {
        end = end + 1;
    }
    proof {
        lemma_first_from(chars@, '\n', start as int, end as int);
    }
    let line = string_from_chars(&chars, start, end);
    let line_clusters = graphemes_of(line.as_str());
    let m = line_clusters.len();
    proof {
        let lg = line_clusters@.map_values(|c: String| c@);
        assert forall|i: int| 0 <= i < lg.len() implies (#[trigger] lg[i]).len() > 0 by {
            assert(line_clusters@[i]@.len() > 0);
        }
        lemma_flatten_len_ge(lg);
    }
    (clusters, chars, start, end, m, first + m)
}

/// From grapheme cluster `g_index` of `target` on, replaces clusters by those of
/// `source`, one for one; where `source` has at least as many clusters as the rest of
/// the line, it replaces that whole rest. The newline itself, and what follows it,
/// stay. Where `source` has more clusters than that rest, the result gives the
/// position at which the line ended and the number of clusters it grew by; otherwise
/// it is `None`.
pub fn replace_graphemes_until_newline(target: &mut String, g_index: usize, source: &str) -> (grown: Option<(usize, usize)>)
    requires
        replace_fits(old(target)@, g_index as int, source@),
    ensures
        final(target)@ == replaced_until_newline(old(target)@, g_index as int, source@),
        match grown {
            Some((a, b)) => replace_report(old(target)@, g_index as int, source@) == Some((a as int, b as int)),
            None => replace_report(old(target)@, g_index as int, source@) is None,
        },
{
    let k = count_grapheme_clusters(source);
    let (clusters, chars, start, end, m, line_end) = line_rest(target.as_str(), g_index);
    let ghost g = clusters@.map_values(|c: String| c@);
    if k >= m {
        *target = splice_chars(&chars, start, end, source);
        if k > m {
            Some((line_end, k - m))
        } else {
            None
        }
    } else {
        proof {
            lemma_joined_split(g, 0, g_index as int, g_index + k);
            lemma_joined_prefix(g, g_index + k);
        }
        let cut = cluster_char_offset(&clusters, g_index + k, Ghost(chars.len() as nat));
        *target = splice_chars(&chars, start, cut, source);
        None
    }
}

/// `replace_graphemes_until_newline`, where it finds the end of what it replaces
/// (`Some` of its result); otherwise `None`, and `target` is left unchanged.
pub fn try_replace_graphemes_until_newline(target: &mut String, g_index: usize, source: &str) -> (result: Option<Option<(usize, usize)>>)
    ensures
        result is Some <==> replace_fits(old(target)@, g_index as int, source@),
        result is None ==> final(target)@ == old(target)@,
        result is Some ==> final(target)@ == replaced_until_newline(old(target)@, g_index as int, source@),
        result matches Some(grown) ==> match grown {
            Some((a, b)) => replace_report(old(target)@, g_index as int, source@) == Some((a as int, b as int)),
            None => replace_report(old(target)@, g_index as int, source@) is None,
        },
{
    let k = count_grapheme_clusters(source);
    let (clusters, _chars, _start, _end, m, _line_end) = line_rest(target.as_str(), g_index);
    if k < m && (g_index >= clusters.len() || k >= clusters.len() - g_index) {
        return None;
    }
    Some(replace_graphemes_until_newline(target, g_index, source))
}

/// Splits `original` after its first `at` grapheme clusters: `original` keeps those,
/// the rest is returned. When `original` has no more than `at` clusters it is left
/// unchanged and the result is empty.
pub fn split_off_graphemes(original: &mut String, at: usize) -> (rest: String)
    ensures
        ({
            let g = grapheme_clusters(old(original)@);
            if at >= g.len() {
                &&& final(original)@ == old(original)@
                &&& rest@ == Seq::<char>::empty()
            } else {
                &&& final(original)@ == joined(g, 0, at as int)
                &&& rest@ == joined(g, at as int, g.len() as int)
            }
        }),
        final(original)@ + rest@ == old(original)@,
{
    let clusters = graphemes_of(original.as_str());
    let ghost g = clusters@.map_values(|c: String| c@);
    proof {
        lemma_joined_prefix(g, g.len() as int);
    }
    if at >= clusters.len() {
        return String::new();
    }
    proof {
        lemma_joined_split(g, 0, at as int, g.len() as int);
    }
    let mut left = String::new();
    append_all(&mut left, &clusters, 0, at);
    let mut right = String::new();
    append_all(&mut right, &clusters, at, clusters.len());
    *original = left;
    right
}

/// The number of clusters that `delete_front_unicode` removes from a text of
/// `total` clusters when asked to remove `n`: `n`, or all of them where it has fewer.
pub open spec fn front_deletion_count(total: nat, n: nat) -> nat {
    if n < total {
        n
    } else {
        total
    }
}

/// Removes the first `n` grapheme clusters of `s` (all of them if it has fewer).
pub fn delete_front_unicode(s: &mut String, n: usize)
    ensures
        ({
            let g = grapheme_clusters(old(s)@);
            final(s)@ == joined(g, front_deletion_count(g.len(), n as nat) as int, g.len() as int)
        }),
        final(s)@ == old(s)@.skip(old(s)@.len() - final(s)@.len()),
{
    let clusters = graphemes_of(s.as_str());
    let ghost g = clusters@.map_values(|c: String| c@);
    let total = clusters.len();
    let k = if n < total {
        n
    } else {
        total
    };
    proof {
        lemma_joined_prefix(g, g.len() as int);
        lemma_joined_split(g, 0, k as int, total as int);
        assert(old(s)@.skip(joined(g, 0, k as int).len() as int) =~= joined(g, k as int, total as int));
    }
    let mut rest = String::new();
    append_all(&mut rest, &clusters, k, total);
    *s = rest;
}

/// Removes the last `n` grapheme clusters of `s` (all of them if it has fewer).
pub fn delete_back_unicode(s: &mut String, n: usize)
    ensures
        ({
            let g = grapheme_clusters(old(s)@);
            final(s)@ == joined(g, 0, if n < g.len() { g.len() - n } else { 0 })
        }),
        final(s)@ == old(s)@.take(final(s)@.len() as int),
{
    let clusters = graphemes_of(s.as_str());
    let ghost g = clusters@.map_values(|c: String| c@);
    let total = clusters.len();
    let keep = if n < total { total - n } else { 0 };
    proof {
        lemma_joined_prefix(g, g.len() as int);
        lemma_joined_split(g, 0, keep as int, total as int);
        assert(old(s)@.take(joined(g, 0, keep as int).len() as int) =~= joined(g, 0, keep as int));
    }
    let mut kept = String::new();
    append_all(&mut kept, &clusters, 0, keep);
    *s = kept;
}

/// Appends `n` newlines to `s`; it then has `n` more lines.
pub fn insert_new_lines(s: &mut String, n: usize)
    ensures
        final(s)@ == old(s)@ + repeated('\n', n as nat),
        count_newline_bytes(vstd::utf8::encode_utf8(final(s)@)) == count_newline_bytes(vstd::utf8::encode_utf8(old(s)@)) + n,
{
    push_repeated(s, '\n', n);
    proof {
        lemma_encode_utf8_concat(old(s)@, repeated('\n', n as nat));
        lemma_count_newline_bytes_concat(vstd::utf8::encode_utf8(old(s)@), vstd::utf8::encode_utf8(repeated('\n', n as nat)));
        lemma_newlines_encode(n as nat);
    }
}

/// Newline bytes add up over a concatenation.
proof fn lemma_count_newline_bytes_concat(a: Seq<u8>, b: Seq<u8>)
    ensures
        count_newline_bytes(a + b) == count_newline_bytes(a) + count_newline_bytes(b),
    decreases b.len(),
{
    if b.len() == 0 {
        assert(a + b =~= a);
    } else {
        lemma_count_newline_bytes_concat(a, b.drop_last());
        assert((a + b).drop_last() =~= a + b.drop_last());
    }
}

/// `n` newline characters encode to `n` newline bytes.
proof fn lemma_newlines_encode(n: nat)
    ensures
        count_newline_bytes(vstd::utf8::encode_utf8(repeated('\n', n))) == n,
    decreases n,
{
    if n == 0 {
        assert(repeated('\n', n) =~= Seq::<char>::empty());
        assert(vstd::utf8::encode_utf8(repeated('\n', n)) =~= Seq::<u8>::empty());
    } else {
        let m = (n - 1) as nat;
        assert(repeated('\n', n) =~= repeated('\n', m) + seq!['\n']);
        lemma_encode_utf8_concat(repeated('\n', m), seq!['\n']);
        let one = seq!['\n'];
        assert(one.drop_first() =~= Seq::<char>::empty());
        assert(vstd::utf8::encode_utf8(one.drop_first()) =~= Seq::<u8>::empty());
        assert(vstd::utf8::encode_utf8(one) =~= seq![10u8]) by {
            assert(vstd::utf8::encode_utf8(one) == vstd::utf8::encode_scalar(one[0] as u32)
                + vstd::utf8::encode_utf8(one.drop_first()));
            assert(one[0] as u32 == 10u32);
            assert(10u32 & 0x7F == 10u32) by (bit_vector);
            assert(vstd::utf8::encode_scalar(10u32) =~= seq![10u8]);
        }
        lemma_newlines_encode(m);
        lemma_count_newline_bytes_concat(vstd::utf8::encode_utf8(repeated('\n', m)), seq![10u8]);
        assert(seq![10u8].drop_last() =~= Seq::<u8>::empty());
        assert(count_newline_bytes(Seq::<u8>::empty()) == 0);
        assert(seq![10u8].last() == 10u8);
        assert(count_newline_bytes(seq![10u8]) == count_newline_bytes(seq![10u8].drop_last()) + 1);
    }
}

/// Appends `n` spaces to `s`.
pub fn push_spaces(s: &mut String, n: usize)
    ensures
        final(s)@ == old(s)@ + repeated(' ', n as nat),
{
    push_repeated(s, ' ', n);
}

/// Inserts `n` spaces at the start of grapheme cluster `idx` of `s`, or at its end
/// when it has no more than `idx` clusters.
pub fn insert_spaces(s: &mut String, idx: usize, n: usize)
    ensures
        ({
            let pos = grapheme_start(old(s)@, idx as int);
            final(s)@ == old(s)@.take(pos) + repeated(' ', n as nat) + old(s)@.skip(pos)
        }),
{
    let mut spaces = String::new();
    push_repeated(&mut spaces, ' ', n);
    let clusters = graphemes_of(s.as_str());
    let ghost g = clusters@.map_values(|c: String| c@);
    let chars = chars_of(s.as_str());
    proof {
        lemma_joined_prefix(g, g.len() as int);
    }
    let pos: usize = if idx < clusters.len() {
        cluster_char_offset(&clusters, idx, Ghost(chars.len() as nat))
    } else {
        chars.len()
    };
    proof {
        if idx < clusters.len() {
            lemma_joined_prefix(g, idx as int);
        }
        assert(spaces@ =~= repeated(' ', n as nat));
    }
    *s = splice_chars(&chars, pos, pos, spaces.as_str());
}

/// The number of newline bytes in a byte sequence.
pub open spec fn count_newline_bytes(bytes: Seq<u8>) -> nat
    decreases bytes.len(),
{
    if bytes.len() == 0 {
        0
    } else {
        count_newline_bytes(bytes.drop_last()) + if bytes.last() == 10u8 { 1nat } else { 0nat }
    }
}

/// The number of lines of `s`: one more than its newline bytes.
pub fn count_number_lines(s: &str) -> (lines: usize)
    requires
        s.spec_bytes().len() < usize::MAX,
    ensures
        lines == count_newline_bytes(s.spec_bytes()) + 1,
{
    let bytes = s.as_bytes();
    let mut count: usize = 0;
    let mut i: usize = 0;
    while i < bytes.len()
        invariant
            bytes@ == s.spec_bytes(),
            i <= bytes@.len(),
            count == count_newline_bytes(bytes@.take(i as int)),
            count <= i,
        decreases bytes@.len() - i,
    {
        assert(bytes@.take(i + 1).drop_last() =~= bytes@.take(i as int));
        if bytes[i] == 10u8 {
            count += 1;
        }
        i += 1;
    }
    assert(bytes@.take(bytes@.len() as int) =~= bytes@);
    count + 1
}

} // verus!
