//! The blank-line normalizer: a run of blank lines becomes a single blank line.
use vstd::prelude::*;
use crate::text::text_views;

verus! {

/// Normalizes `lines`, starting after a blank line (`after_blank`) or after
/// content: a blank line after content is kept and a blank line after a blank
/// line is dropped; other lines pass unchanged.
pub open spec fn normalize_from(lines: Seq<Seq<char>>, after_blank: bool) -> Seq<Seq<char>>
    decreases lines.len(),
{
    if lines.len() == 0 {
        Seq::empty()
    } else if lines[0].len() == 0 {
        if after_blank {
            normalize_from(lines.drop_first(), true)
        } else {
            seq![lines[0]] + normalize_from(lines.drop_first(), true)
        }
    } else {
        seq![lines[0]] + normalize_from(lines.drop_first(), false)
    }
}

/// `lines` with each run of blank lines collapsed to one.
pub open spec fn normalize(lines: Seq<Seq<char>>) -> Seq<Seq<char>> {
    normalize_from(lines, false)
}

/// No two neighbouring lines of `lines` are both blank.
pub open spec fn no_double_blank(lines: Seq<Seq<char>>) -> bool {
    forall|i: int|
        0 <= i < lines.len() - 1 ==> !(#[trigger] lines[i].len() == 0 && lines[i + 1].len() == 0)
}

proof fn lemma_normalize_from_idempotent(lines: Seq<Seq<char>>, after_blank: bool)
    ensures
        normalize_from(normalize_from(lines, after_blank), after_blank) == normalize_from(
            lines,
            after_blank,
        ),
    decreases lines.len(),
{
    if lines.len() > 0 {
        let rest = lines.drop_first();
        let once = normalize_from(lines, after_blank);
        if lines[0].len() == 0 {
            if after_blank {
                lemma_normalize_from_idempotent(rest, true);
            } else {
                lemma_normalize_from_idempotent(rest, true);
                assert(once.drop_first() =~= normalize_from(rest, true));
            }
        } else {
            lemma_normalize_from_idempotent(rest, false);
            assert(once.drop_first() =~= normalize_from(rest, false));
        }
    }
}

proof fn lemma_normalize_from_shape(lines: Seq<Seq<char>>, after_blank: bool)
    ensures
        no_double_blank(normalize_from(lines, after_blank)),
        after_blank && normalize_from(lines, after_blank).len() > 0 ==> normalize_from(
            lines,
            after_blank,
        )[0].len() > 0,
    decreases lines.len(),
{
    if lines.len() > 0 {
        let rest = lines.drop_first();
        let out = normalize_from(lines, after_blank);
        if lines[0].len() == 0 {
            lemma_normalize_from_shape(rest, true);
            if !after_blank {
                let tail = normalize_from(rest, true);
                assert forall|i: int| 0 <= i < out.len() - 1 implies !(#[trigger] out[i].len() == 0
                    && out[i + 1].len() == 0) by {
                    if i > 0 {
                        assert(out[i] == tail[i - 1]);
                        assert(out[i + 1] == tail[i]);
                    } else {
                        assert(out[1] == tail[0]);
                    }
                }
            }
        } else {
            lemma_normalize_from_shape(rest, false);
            let tail = normalize_from(rest, false);
            assert forall|i: int| 0 <= i < out.len() - 1 implies !(#[trigger] out[i].len() == 0
                && out[i + 1].len() == 0) by {
                if i > 0 {
                    assert(out[i] == tail[i - 1]);
                    assert(out[i + 1] == tail[i]);
                }
            }
        }
    }
}

/// Normalizing twice gives what normalizing once gave, and in any normalized
/// output no two neighbouring lines are both blank: at most one blank line
/// separates two lines of content.
pub proof fn lemma_normalize_idempotent(lines: Seq<Seq<char>>)
    ensures
        normalize(normalize(lines)) == normalize(lines),
        no_double_blank(normalize(lines)),
{
    lemma_normalize_from_idempotent(lines, false);
    lemma_normalize_from_shape(lines, false);
}

/// Collapses each run of blank lines in `lines` to a single blank line.
pub fn normalize_lines(lines: &Vec<String>) -> (r: Vec<String>)
    ensures
        text_views(r@) == normalize(text_views(lines@)),
        no_double_blank(text_views(r@)),
{
    let ghost all = text_views(lines@);
    let mut out: Vec<String> = Vec::new();
    let mut after_blank = false;
    let mut i: usize = 0;
    assert(all.skip(0) =~= all);
    assert(text_views(out@) + normalize_from(all, false) =~= normalize_from(all, false));
    while i < lines.len()
        invariant
            i <= lines.len(),
            all == text_views(lines@),
            text_views(out@) + normalize_from(all.skip(i as int), after_blank) == normalize(
                all,
            ),
        decreases lines.len() - i,
    {
        let ghost rest = all.skip(i as int);
        let ghost before = text_views(out@);
        assert(rest.drop_first() =~= all.skip(i + 1));
        assert(rest[0] == lines@[i as int]@);
        let blank = lines[i].as_str().is_empty();
        if blank && after_blank {
        } else {
            out.push(lines[i].clone());
            assert(text_views(out@) =~= before.push(rest[0]));
            assert(before + (seq![rest[0]] + normalize_from(rest.drop_first(), blank)) =~= before.push(
                rest[0],
            ) + normalize_from(rest.drop_first(), blank));
        }
        after_blank = blank;
        i = i + 1;
    }
    assert(all.skip(lines.len() as int) =~= Seq::<Seq<char>>::empty());
    assert(text_views(out@) + Seq::<Seq<char>>::empty() =~= text_views(out@));
    proof {
        lemma_normalize_idempotent(all);
    }
    out
}

} // verus!
