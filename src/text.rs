//! Character-level text operations: whitespace trimming, substring search,
//! carriage-return stripping, paragraph and line segmentation, and joining.
use vstd::prelude::*;

verus! {

/// The Unicode `White_Space` property, which `char::is_whitespace` and
/// `str::trim` go by.
pub open spec fn is_ws(c: char) -> bool {
    let u = c as u32;
    (0x09 <= u && u <= 0x0d) || u == 0x20 || u == 0x85 || u == 0xa0 || u == 0x1680 || (0x2000
        <= u && u <= 0x200a) || u == 0x2028 || u == 0x2029 || u == 0x202f || u == 0x205f || u
        == 0x3000
}

/// `s` without its leading whitespace.
pub open spec fn trim_start(s: Seq<char>) -> Seq<char>
    decreases s.len(),
{
    if s.len() > 0 && is_ws(s[0]) {
        trim_start(s.drop_first())
    } else {
        s
    }
}

/// `s` without its trailing whitespace.
pub open spec fn trim_end(s: Seq<char>) -> Seq<char>
    decreases s.len(),
{
    if s.len() > 0 && is_ws(s.last()) {
        trim_end(s.drop_last())
    } else {
        s
    }
}

/// `s` without leading and trailing whitespace.
pub open spec fn trim(s: Seq<char>) -> Seq<char> {
    trim_end(trim_start(s))
}

/// `p` occurs in `s` starting at position `i`.
pub open spec fn occurs_at(s: Seq<char>, p: Seq<char>, i: int) -> bool {
    0 <= i && i + p.len() <= s.len() && s.subrange(i, i + p.len()) == p
}

/// `p` is a substring of `s`.
pub open spec fn contains(s: Seq<char>, p: Seq<char>) -> bool {
    exists|i: int| occurs_at(s, p, i)
}

/// `s` with every carriage return removed.
pub open spec fn strip_cr(s: Seq<char>) -> Seq<char> {
    s.filter(|c: char| c != '\r')
}

/// Adds `c` in front of the first piece of `r` (making a piece of it if `r` is empty).
pub open spec fn prepend_first(c: char, r: Seq<Seq<char>>) -> Seq<Seq<char>> {
    if r.len() == 0 {
        seq![seq![c]]
    } else {
        r.update(0, seq![c] + r[0])
    }
}

/// The pieces of `s` between consecutive blank-line delimiters `"\n\n"`,
/// found left to right without overlap; an empty text is one empty piece.
pub open spec fn split_blocks(s: Seq<char>) -> Seq<Seq<char>>
    decreases s.len(),
{
    if s.len() == 0 {
        seq![Seq::empty()]
    } else if s.len() >= 2 && s[0] == '\n' && s[1] == '\n' {
        seq![Seq::empty()] + split_blocks(s.skip(2))
    } else {
        prepend_first(s[0], split_blocks(s.skip(1)))
    }
}

/// The lines of `s`, each without its `'\n'`; a final newline ends the last
/// line rather than starting an empty one, and an empty text has no lines.
pub open spec fn lines(s: Seq<char>) -> Seq<Seq<char>>
    decreases s.len(),
{
    if s.len() == 0 {
        Seq::empty()
    } else if s[0] == '\n' {
        seq![Seq::empty()] + lines(s.skip(1))
    } else {
        prepend_first(s[0], lines(s.skip(1)))
    }
}

/// Each part followed by `term`, all concatenated.
pub open spec fn join_terminated(parts: Seq<Seq<char>>, term: Seq<char>) -> Seq<char>
    decreases parts.len(),
{
    if parts.len() == 0 {
        Seq::empty()
    } else {
        join_terminated(parts.drop_last(), term) + parts.last() + term
    }
}

/// The blank-line delimiter.
pub open spec fn blank_delim() -> Seq<char> {
    seq!['\n', '\n']
}

/// The line terminator.
pub open spec fn newline() -> Seq<char> {
    seq!['\n']
}

/// The views of a sequence of strings.
pub open spec fn text_views(v: Seq<String>) -> Seq<Seq<char>> {
    v.map_values(|s: String| s@)
}

/// The views of a vector of character vectors.
pub open spec fn views(v: Seq<Vec<char>>) -> Seq<Seq<char>> {
    v.map_values(|x: Vec<char>| x@)
}

/// The state of a left-to-right segmentation: the piece being built, glued
/// onto the front of what the rest of the text segments into.
pub open spec fn glue(cur: Seq<char>, r: Seq<Seq<char>>) -> Seq<Seq<char>> {
    if r.len() == 0 {
        if cur.len() == 0 {
            Seq::empty()
        } else {
            seq![cur]
        }
    } else {
        r.update(0, cur + r[0])
    }
}

proof fn lemma_glue_prepend(cur: Seq<char>, c: char, r: Seq<Seq<char>>)
    ensures
        glue(cur, prepend_first(c, r)) == glue(cur.push(c), r),
{
    if r.len() == 0 {
        assert(cur + seq![c] =~= cur.push(c));
        assert(glue(cur, prepend_first(c, r)) =~= glue(cur.push(c), r));
    } else {
        assert(cur + (seq![c] + r[0]) =~= cur.push(c) + r[0]);
        assert(glue(cur, prepend_first(c, r)) =~= glue(cur.push(c), r));
    }
}

proof fn lemma_glue_empty(r: Seq<Seq<char>>)
    ensures
        glue(Seq::empty(), r) == r,
{
    if r.len() > 0 {
        assert(Seq::<char>::empty() + r[0] =~= r[0]);
        assert(glue(Seq::empty(), r) =~= r);
    } else {
        assert(glue(Seq::empty(), r) =~= r);
    }
}

proof fn lemma_glue_split(cur: Seq<char>, r: Seq<Seq<char>>)
    ensures
        glue(cur, seq![Seq::empty()] + r) == seq![cur] + r,
{
    assert(cur + Seq::<char>::empty() =~= cur);
    assert(glue(cur, seq![Seq::empty()] + r) =~= seq![cur] + r);
}

/// Joining a part in front adds that part and its terminator in front.
pub proof fn lemma_join_front(a: Seq<char>, r: Seq<Seq<char>>, term: Seq<char>)
    ensures
        join_terminated(seq![a] + r, term) == a + term + join_terminated(r, term),
    decreases r.len(),
{
    if r.len() == 0 {
        assert((seq![a] + r).drop_last() =~= Seq::<Seq<char>>::empty());
        assert((seq![a] + r).last() == a);
        assert(join_terminated(Seq::<Seq<char>>::empty(), term) == Seq::<char>::empty());
        assert(join_terminated(seq![a] + r, term) =~= a + term + join_terminated(r, term));
    } else {
        lemma_join_front(a, r.drop_last(), term);
        assert((seq![a] + r).drop_last() =~= seq![a] + r.drop_last());
        assert((seq![a] + r).last() == r.last());
        assert(join_terminated(seq![a] + r, term) =~= a + term + join_terminated(r, term));
    }
}

proof fn lemma_join_prepend_first(c: char, r: Seq<Seq<char>>, term: Seq<char>)
    requires
        r.len() > 0,
    ensures
        join_terminated(prepend_first(c, r), term) == seq![c] + join_terminated(r, term),
{
    let rest = r.drop_first();
    assert(r =~= seq![r[0]] + rest);
    assert(prepend_first(c, r) =~= seq![seq![c] + r[0]] + rest);
    lemma_join_front(seq![c] + r[0], rest, term);
    lemma_join_front(r[0], rest, term);
    assert(seq![c] + r[0] + term + join_terminated(rest, term) =~= seq![c] + (r[0] + term
        + join_terminated(rest, term)));
}

/// Every piece of a segmentation is a segmentation of one piece, and a
/// non-empty first piece starts where the text starts.
pub proof fn lemma_split_blocks_pieces(s: Seq<char>)
    ensures
        split_blocks(s).len() > 0,
        split_blocks(s)[0].len() > 0 ==> s.len() > 0 && split_blocks(s)[0][0] == s[0],
        forall|i: int|
            0 <= i < split_blocks(s).len() ==> split_blocks(#[trigger] split_blocks(s)[i]) == seq![
                split_blocks(s)[i],
            ],
    decreases s.len(),
{
    if s.len() == 0 {
        assert(split_blocks(Seq::<char>::empty()) == seq![Seq::<char>::empty()]);
    } else if s.len() >= 2 && s[0] == '\n' && s[1] == '\n' {
        lemma_split_blocks_pieces(s.skip(2));
        let r = split_blocks(s.skip(2));
        let all = split_blocks(s);
        assert(all == seq![Seq::<char>::empty()] + r);
        assert forall|i: int| 0 <= i < all.len() implies split_blocks(#[trigger] all[i]) == seq![
            all[i],
        ] by {
            if i == 0 {
                assert(split_blocks(Seq::<char>::empty()) == seq![Seq::<char>::empty()]);
            } else {
                assert(all[i] == r[i - 1]);
            }
        }
    } else {
        lemma_split_blocks_pieces(s.skip(1));
        let r = split_blocks(s.skip(1));
        let all = split_blocks(s);
        let x = seq![s[0]] + r[0];
        assert(all == r.update(0, x));
        assert(x.skip(1) =~= r[0]);
        if r[0].len() > 0 {
            assert(r[0][0] == s[1]);
        }
        assert(!(x.len() >= 2 && x[0] == '\n' && x[1] == '\n'));
        assert(split_blocks(x) == prepend_first(s[0], split_blocks(r[0])));
        assert(split_blocks(r[0]) == seq![r[0]]);
        assert(split_blocks(x) =~= seq![x]);
        assert forall|i: int| 0 <= i < all.len() implies split_blocks(#[trigger] all[i]) == seq![
            all[i],
        ] by {
            if i > 0 {
                assert(all[i] == r[i]);
            }
        }
    }
}

/// Joining the pieces of `s`, each with its delimiter, gives `s` followed by
/// one delimiter.
pub proof fn lemma_split_blocks_join(s: Seq<char>)
    ensures
        join_terminated(split_blocks(s), blank_delim()) == s + blank_delim(),
    decreases s.len(),
{
    if s.len() == 0 {
        lemma_join_front(Seq::empty(), Seq::empty(), blank_delim());
        assert(seq![Seq::<char>::empty()] + Seq::<Seq<char>>::empty() =~= seq![
            Seq::<char>::empty(),
        ]);
        assert(join_terminated(split_blocks(s), blank_delim()) =~= s + blank_delim());
    } else if s.len() >= 2 && s[0] == '\n' && s[1] == '\n' {
        lemma_split_blocks_join(s.skip(2));
        lemma_join_front(Seq::empty(), split_blocks(s.skip(2)), blank_delim());
        assert(Seq::<char>::empty() + blank_delim() + (s.skip(2) + blank_delim()) =~= s
            + blank_delim());
    } else {
        lemma_split_blocks_join(s.skip(1));
        lemma_split_blocks_pieces(s.skip(1));
        lemma_join_prepend_first(s[0], split_blocks(s.skip(1)), blank_delim());
        assert(seq![s[0]] + (s.skip(1) + blank_delim()) =~= s + blank_delim());
    }
}

/// A text that is empty or ends with a newline is its lines, each followed by
/// a newline.
pub proof fn lemma_lines_join(t: Seq<char>)
    requires
        t.len() == 0 || t.last() == '\n',
    ensures
        join_terminated(lines(t), newline()) == t,
        t.len() > 0 ==> lines(t).len() > 0,
    decreases t.len(),
{
    if t.len() > 0 {
        let rest = t.skip(1);
        if rest.len() > 0 {
            assert(rest.last() == t.last());
        }
        lemma_lines_join(rest);
        if t[0] == '\n' {
            lemma_join_front(Seq::empty(), lines(rest), newline());
            assert(Seq::<char>::empty() + newline() + rest =~= t);
        } else {
            assert(rest.len() > 0);
            lemma_join_prepend_first(t[0], lines(rest), newline());
            assert(seq![t[0]] + rest =~= t);
        }
    }
}

/// No line holds a newline, and a non-empty text without newlines is one line.
pub proof fn lemma_lines_pieces(s: Seq<char>)
    ensures
        forall|i: int, j: int|
            0 <= i < lines(s).len() && 0 <= j < lines(s)[i].len() ==> #[trigger] lines(s)[i][j]
                != '\n',
        s.len() > 0 && (forall|j: int| 0 <= j < s.len() ==> s[j] != '\n') ==> lines(s) == seq![s],
    decreases s.len(),
{
    if s.len() > 0 {
        let rest = s.skip(1);
        lemma_lines_pieces(rest);
        let r = lines(rest);
        let all = lines(s);
        if s[0] == '\n' {
            assert(all == seq![Seq::<char>::empty()] + r);
            assert forall|i: int, j: int| 0 <= i < all.len() && 0 <= j < all[i].len() implies #[trigger] all[i][j]
                != '\n' by {
                assert(i > 0);
                assert(all[i] == r[i - 1]);
            }
        } else {
            assert forall|i: int, j: int| 0 <= i < all.len() && 0 <= j < all[i].len() implies #[trigger] all[i][j]
                != '\n' by {
                if r.len() == 0 {
                    assert(all == seq![seq![s[0]]]);
                } else if i == 0 {
                    assert(all[0] == seq![s[0]] + r[0]);
                    if j > 0 {
                        assert(all[0][j] == r[0][j - 1]);
                    }
                } else {
                    assert(all[i] == r[i]);
                }
            }
            if forall|j: int| 0 <= j < s.len() ==> s[j] != '\n' {
                if rest.len() == 0 {
                    assert(r == Seq::<Seq<char>>::empty());
                    assert(s =~= seq![s[0]]);
                    assert(all =~= seq![s]);
                } else {
                    assert forall|j: int| 0 <= j < rest.len() implies rest[j] != '\n' by {
                        assert(rest[j] == s[j + 1]);
                    }
                    assert(r == seq![rest]);
                    assert(seq![s[0]] + rest =~= s);
                    assert(all =~= seq![s]);
                }
            }
        }
    }
}

/// Filtering by a predicate that every element meets changes nothing.
pub proof fn lemma_filter_keeps_all(s: Seq<Seq<char>>, pred: spec_fn(Seq<char>) -> bool)
    requires
        forall|i: int| 0 <= i < s.len() ==> pred(#[trigger] s[i]),
    ensures
        s.filter(pred) == s,
    decreases s.len(),
{
    reveal(Seq::filter);
    if s.len() > 0 {
        lemma_filter_keeps_all(s.drop_last(), pred);
        assert(s.drop_last().push(s.last()) =~= s);
    }
}

/// Whether `c` is whitespace, as `char::is_whitespace` decides.
pub fn is_whitespace(c: char) -> (r: bool)
    ensures
        r == is_ws(c),
{
    let u = c as u32;
    (0x09 <= u && u <= 0x0d) || u == 0x20 || u == 0x85 || u == 0xa0 || u == 0x1680 || (0x2000
        <= u && u <= 0x200a) || u == 0x2028 || u == 0x2029 || u == 0x202f || u == 0x205f || u
        == 0x3000
}

/// Copies `s[lo..hi]`.
pub fn copy_range(s: &Vec<char>, lo: usize, hi: usize) -> (r: Vec<char>)
    requires
        lo <= hi <= s.len(),
    ensures
        r@ == s@.subrange(lo as int, hi as int),
{
    let mut r: Vec<char> = Vec::new();
    let mut k: usize = lo;
    while k < hi
        invariant
            lo <= k <= hi <= s.len(),
            r@ == s@.subrange(lo as int, k as int),
        decreases hi - k,
    {
        r.push(s[k]);
        assert(r@ =~= s@.subrange(lo as int, k + 1));
        k = k + 1;
    }
    r
}

/// `s` without leading and trailing whitespace.
pub fn trim_chars(s: &Vec<char>) -> (r: Vec<char>)
    ensures
        r@ == trim(s@),
{
    let n = s.len();
    let mut i: usize = 0;
    assert(s@.subrange(0, n as int) =~= s@);
    while i < n && is_whitespace(s[i])
        invariant
            i <= n == s.len(),
            trim_start(s@.subrange(i as int, n as int)) == trim_start(s@),
        decreases n - i,
    {
        assert(s@.subrange(i as int, n as int).drop_first() =~= s@.subrange(i + 1, n as int));
        i = i + 1;
    }
    assert(trim_start(s@) == s@.subrange(i as int, n as int));
    let mut j: usize = n;
    while j > i && is_whitespace(s[j - 1])
        invariant
            i <= j <= n == s.len(),
            trim_end(s@.subrange(i as int, j as int)) == trim(s@),
        decreases j,
    {
        assert(s@.subrange(i as int, j as int).drop_last() =~= s@.subrange(i as int, j - 1));
        j = j - 1;
    }
    copy_range(s, i, j)
}

/// Whether `a` and `b` hold the same characters.
pub fn chars_equal(a: &Vec<char>, b: &Vec<char>) -> (r: bool)
    ensures
        r == (a@ == b@),
{
    if a.len() != b.len() {
        return false;
    }
    let mut k: usize = 0;
    while k < a.len()
        invariant
            k <= a.len() == b.len(),
            forall|t: int| 0 <= t < k ==> a@[t] == b@[t],
        decreases a.len() - k,
    {
        if a[k] != b[k] {
            return false;
        }
        k = k + 1;
    }
    assert(a@ =~= b@);
    true
}

/// Whether `p` occurs in `s` at position `i`.
pub fn occurs_at_exec(s: &Vec<char>, p: &Vec<char>, i: usize) -> (r: bool)
    requires
        i + p.len() <= s.len(),
    ensures
        r == occurs_at(s@, p@, i as int),
{
    let m = p.len();
    let mut k: usize = 0;
    while k < m
        invariant
            k <= m == p.len(),
            i + m <= s.len(),
            forall|t: int| 0 <= t < k ==> s@[i + t] == p@[t],
        decreases m - k,
    {
        if s[i + k] != p[k] {
            assert(s@.subrange(i as int, i + m)[k as int] != p@[k as int]);
            return false;
        }
        k = k + 1;
    }
    assert(s@.subrange(i as int, i + m) =~= p@);
    true
}

/// Whether `p` is a substring of `s`.
pub fn contains_exec(s: &Vec<char>, p: &Vec<char>) -> (r: bool)
    ensures
        r == contains(s@, p@),
{
    if p.len() > s.len() {
        return false;
    }
    if p.len() == 0 {
        assert(s@.subrange(0, 0) =~= p@);
        assert(occurs_at(s@, p@, 0));
        return true;
    }
    let last = s.len() - p.len();
    let mut i: usize = 0;
    while i <= last
        invariant
            last + p.len() == s.len(),
            p.len() > 0,
            forall|t: int| 0 <= t < i ==> !occurs_at(s@, p@, t),
        decreases last + 1 - i,
    {
        if occurs_at_exec(s, p, i) {
            return true;
        }
        i = i + 1;
    }
    assert forall|t: int| !occurs_at(s@, p@, t) by {
        if 0 <= t && t + p.len() <= s.len() {
            assert(t < i);
        }
    }
    false
}

/// `s` with every carriage return removed.
pub fn strip_cr_exec(s: &Vec<char>) -> (r: Vec<char>)
    ensures
        r@ == strip_cr(s@),
{
    let mut r: Vec<char> = Vec::new();
    let mut k: usize = 0;
    while k < s.len()
        invariant
            k <= s.len(),
            r@ == strip_cr(s@.subrange(0, k as int)),
        decreases s.len() - k,
    {
        proof {
            let pre = s@.subrange(0, k + 1);
            assert(pre.drop_last() =~= s@.subrange(0, k as int));
            reveal(Seq::filter);
        }
        if s[k] != '\r' {
            r.push(s[k]);
        }
        k = k + 1;
    }
    assert(s@.subrange(0, s.len() as int) =~= s@);
    r
}

/// The pieces of `s` between blank-line delimiters.
pub fn split_blocks_exec(s: &Vec<char>) -> (r: Vec<Vec<char>>)
    ensures
        views(r@) == split_blocks(s@),
{
    let n = s.len();
    let mut acc: Vec<Vec<char>> = Vec::new();
    let mut cur: Vec<char> = Vec::new();
    let mut i: usize = 0;
    assert(s@.skip(0) =~= s@);
    proof {
        lemma_glue_empty(split_blocks(s@));
        assert(views(acc@) + glue(cur@, split_blocks(s@)) =~= glue(cur@, split_blocks(s@)));
    }
    while i < n
        invariant
            i <= n == s.len(),
            views(acc@) + glue(cur@, split_blocks(s@.skip(i as int))) == split_blocks(s@),
        decreases n - i,
    {
        let ghost rest = s@.skip(i as int);
        if i + 1 < n && s[i] == '\n' && s[i + 1] == '\n' {
            proof {
                assert(rest.skip(2) =~= s@.skip(i + 2));
                lemma_glue_split(cur@, split_blocks(rest.skip(2)));
                lemma_glue_empty(split_blocks(rest.skip(2)));
            }
            let ghost old_acc = acc@;
            let ghost piece = cur@;
            acc.push(cur);
            cur = Vec::new();
            assert(views(acc@) =~= views(old_acc).push(piece));
            assert(views(old_acc) + (seq![piece] + split_blocks(rest.skip(2))) =~= views(
                old_acc,
            ).push(piece) + split_blocks(rest.skip(2)));
            i = i + 2;
        } else {
            proof {
                assert(rest.skip(1) =~= s@.skip(i + 1));
                lemma_glue_prepend(cur@, s@[i as int], split_blocks(rest.skip(1)));
            }
            cur.push(s[i]);
            i = i + 1;
        }
    }
    proof {
        assert(s@.skip(n as int) =~= Seq::<char>::empty());
        assert(cur@ + Seq::<char>::empty() =~= cur@);
        assert(glue(cur@, split_blocks(Seq::empty())) =~= seq![cur@]);
    }
    let ghost old_acc = acc@;
    let ghost piece = cur@;
    acc.push(cur);
    assert(views(acc@) =~= views(old_acc).push(piece));
    assert(views(old_acc) + seq![piece] =~= views(old_acc).push(piece));
    acc
}

/// The lines of `s`, without their newlines.
pub fn lines_exec(s: &Vec<char>) -> (r: Vec<Vec<char>>)
    ensures
        views(r@) == lines(s@),
{
    let n = s.len();
    let mut acc: Vec<Vec<char>> = Vec::new();
    let mut cur: Vec<char> = Vec::new();
    let mut i: usize = 0;
    proof {
        assert(s@.skip(0) =~= s@);
        lemma_glue_empty(lines(s@));
        assert(views(acc@) + glue(cur@, lines(s@)) =~= glue(cur@, lines(s@)));
    }
    while i < n
        invariant
            i <= n == s.len(),
            views(acc@) + glue(cur@, lines(s@.skip(i as int))) == lines(s@),
        decreases n - i,
    {
        let ghost rest = s@.skip(i as int);
        proof {
            assert(rest.skip(1) =~= s@.skip(i + 1));
        }
        if s[i] == '\n' {
            proof {
                lemma_glue_split(cur@, lines(rest.skip(1)));
                lemma_glue_empty(lines(rest.skip(1)));
            }
            let ghost old_acc = acc@;
            let ghost piece = cur@;
            acc.push(cur);
            cur = Vec::new();
            assert(views(acc@) =~= views(old_acc).push(piece));
            assert(views(old_acc) + (seq![piece] + lines(rest.skip(1))) =~= views(old_acc).push(
                piece,
            ) + lines(rest.skip(1)));
        } else {
            proof {
                lemma_glue_prepend(cur@, s@[i as int], lines(rest.skip(1)));
            }
            cur.push(s[i]);
        }
        i = i + 1;
    }
    proof {
        assert(s@.skip(n as int) =~= Seq::<char>::empty());
    }
    if cur.len() > 0 {
        let ghost old_acc = acc@;
        let ghost piece = cur@;
        acc.push(cur);
        assert(views(acc@) =~= views(old_acc).push(piece));
        assert(views(old_acc) + seq![piece] =~= views(old_acc).push(piece));
    } else {
        assert(views(acc@) + Seq::empty() =~= views(acc@));
    }
    acc
}

/// Appends `part` to `out`.
pub fn append_chars(out: &mut Vec<char>, part: &Vec<char>)
    ensures
        final(out)@ == old(out)@ + part@,
{
    let mut k: usize = 0;
    let ghost start = out@;
    while k < part.len()
        invariant
            k <= part.len(),
            out@ == start + part@.subrange(0, k as int),
        decreases part.len() - k,
    {
        out.push(part[k]);
        assert(start + part@.subrange(0, k + 1) =~= (start + part@.subrange(0, k as int)).push(
            part@[k as int],
        ));
        k = k + 1;
    }
    assert(part@.subrange(0, part.len() as int) =~= part@);
}

/// The characters of `s`, in order.
pub fn chars_of(s: &str) -> (r: Vec<char>)
    ensures
        r@ == s@,
{
    broadcast use vstd::string::axiom_spec_iter;

    let mut r: Vec<char> = Vec::new();
    for c in it: s.chars()
        invariant
            it.seq() == s@,
            r@ == s@.take(it.index() as int),
    {
        assert(s@.take(it.index() + 1) =~= r@.push(c));
        r.push(c);
    }
    r
}

/// Relies on `String::from_iter` over `&char`: the string made of the
/// characters of `v`, in order.
#[verifier::external_body]
pub(crate) fn string_of(v: &Vec<char>) -> (r: String)
    ensures
        r@ == v@,
{
    String::from_iter(v.iter())
}

} // verus!
