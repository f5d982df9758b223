//! The body filter: drops the paragraphs that global or sender block rules
//! discard, then the lines that global line rules name.
use vstd::prelude::*;
use crate::matcher::{
    all_compile, any_rule_hits, build_block_rules, matches_chars, pattern_compiles, rule_pattern,
    rule_texts, BlockRule, RuleError,
};
use crate::normalize::{normalize, normalize_lines};
use crate::resolver::{
    last_match, query_froms, resolve_sender, rule_froms, SenderQuery, SenderRule,
};
use crate::text::{
    append_chars, blank_delim, chars_equal, chars_of, join_terminated, lemma_filter_keeps_all,
    lemma_join_front, lemma_lines_join, lemma_lines_pieces, lemma_split_blocks_join,
    lemma_split_blocks_pieces, lines, lines_exec, newline, split_blocks, split_blocks_exec,
    string_of, strip_cr, strip_cr_exec, text_views, views,
};

verus! {

/// The loaded configuration: sender searches, global block and line rules,
/// and per-sender block rules.
#[derive(Debug)]
pub struct RuleSet {
    pub searches: Vec<SenderQuery>,
    pub global_blocks: Vec<BlockRule>,
    pub global_lines: Vec<String>,
    pub sender_rules: Vec<SenderRule>,
}

/// A block is kept when no global rule and no sender rule discards it.
pub open spec fn block_kept(global: Seq<Seq<char>>, sender: Seq<Seq<char>>, b: Seq<char>) -> bool {
    !(any_rule_hits(global, b) || any_rule_hits(sender, b))
}

/// The blocks of `text` that are kept, in order.
pub open spec fn kept_blocks(text: Seq<char>, global: Seq<Seq<char>>, sender: Seq<Seq<char>>) -> Seq<
    Seq<char>,
> {
    split_blocks(text).filter(|b: Seq<char>| block_kept(global, sender, b))
}

/// The kept blocks of `text`, each followed by the blank-line delimiter.
pub open spec fn block_pass(text: Seq<char>, global: Seq<Seq<char>>, sender: Seq<Seq<char>>) -> Seq<
    char,
> {
    join_terminated(kept_blocks(text, global, sender), blank_delim())
}

/// The lines of `text` that no line rule equals, each followed by a newline.
pub open spec fn line_pass(text: Seq<char>, line_rules: Seq<Seq<char>>) -> Seq<char> {
    join_terminated(lines(text).filter(|l: Seq<char>| !line_rules.contains(l)), newline())
}

/// The block rules of the sender rule that applies to `header`; none when no
/// sender rule applies.
pub open spec fn sender_blocks(rules: Seq<SenderRule>, header: Seq<char>) -> Seq<Seq<char>> {
    match last_match(header, rule_froms(rules)) {
        Some(i) => rule_texts(rules[i].blocks@),
        None => Seq::empty(),
    }
}

/// The sender rules as read: each sender substring with its block rule texts.
pub open spec fn sender_views(v: Seq<(String, Vec<String>)>) -> Seq<(Seq<char>, Seq<Seq<char>>)> {
    v.map_values(|e: (String, Vec<String>)| (e.0@, text_views(e.1@)))
}

/// Every block rule of every sender compiles.
pub open spec fn senders_compile(v: Seq<(Seq<char>, Seq<Seq<char>>)>) -> bool {
    forall|j: int| 0 <= j < v.len() ==> all_compile(#[trigger] v[j].1)
}

/// The sender rules, seen as sender substrings with their block rule texts.
pub open spec fn sender_rule_views(v: Seq<SenderRule>) -> Seq<(Seq<char>, Seq<Seq<char>>)> {
    v.map_values(|r: SenderRule| (r.from@, rule_texts(r.blocks@)))
}

/// The text body to filter among a message's text parts: the last one, or
/// the empty string when there is none.
pub fn select_body(candidates: &Vec<String>) -> (r: String)
    ensures
        candidates.len() == 0 ==> r@ == Seq::<char>::empty(),
        candidates.len() > 0 ==> r@ == candidates@.last()@,
{
    if candidates.len() == 0 {
        String::new()
    } else {
        candidates[candidates.len() - 1].clone()
    }
}

/// A copy of `v`.
pub fn copy_strings(v: &Vec<String>) -> (r: Vec<String>)
    ensures
        r@ == v@,
{
    let mut r: Vec<String> = Vec::new();
    let mut k: usize = 0;
    while k < v.len()
        invariant
            k <= v.len(),
            r@ == v@.take(k as int),
        decreases v.len() - k,
    {
        r.push(v[k].clone());
        assert(r@ =~= v@.take(k + 1));
        k = k + 1;
    }
    assert(v@.take(v.len() as int) =~= v@);
    r
}

impl RuleSet {
    /// Loads a rule set from the configuration's plain values: the sender
    /// searches, the global block and line rules, and each sender's substring
    /// with its block rules. Fails, naming the rule, when a block rule's
    /// pattern does not compile.
    pub fn new(
        searches: &Vec<String>,
        blocks: &Vec<String>,
        lines: &Vec<String>,
        senders: &Vec<(String, Vec<String>)>,
    ) -> (r: Result<RuleSet, RuleError>)
        ensures
            r is Ok == (all_compile(text_views(blocks@)) && senders_compile(sender_views(senders@))),
            r matches Ok(rs) ==> query_froms(rs.searches@) == text_views(searches@)
                && rs.global_block_texts() == text_views(blocks@) && rs.global_line_texts()
                == text_views(lines@) && sender_rule_views(rs.sender_rules@) == sender_views(
                senders@,
            ),
            r matches Err(RuleError::InvalidPattern(t)) ==> !pattern_compiles(rule_pattern(t@)),
    {
        let mut qs: Vec<SenderQuery> = Vec::new();
        let mut k: usize = 0;
        while k < searches.len()
            invariant
                k <= searches.len(),
                query_froms(qs@) == text_views(searches@).take(k as int),
            decreases searches.len() - k,
        {
            let ghost before = qs@;
            qs.push(SenderQuery { from: searches[k].clone() });
            assert(query_froms(qs@) =~= query_froms(before).push(searches@[k as int]@));
            assert(text_views(searches@).take(k + 1) =~= text_views(searches@).take(k as int).push(
                searches@[k as int]@,
            ));
            k = k + 1;
        }
        assert(text_views(searches@).take(searches.len() as int) =~= text_views(searches@));
        let global_blocks = match build_block_rules(blocks) {
            Ok(v) => v,
            Err(e) => {
                return Err(e);
            },
        };
        let global_lines = copy_strings(lines);
        let mut rules: Vec<SenderRule> = Vec::new();
        let mut j: usize = 0;
        while j < senders.len()
            invariant
                j <= senders.len(),
                sender_rule_views(rules@) == sender_views(senders@).take(j as int),
                senders_compile(sender_views(senders@).take(j as int)),
            decreases senders.len() - j,
        {
            let ghost sv = sender_views(senders@);
            assert(sv[j as int] == (senders@[j as int].0@, text_views(senders@[j as int].1@)));
            let sender_blocks = match build_block_rules(&senders[j].1) {
                Ok(v) => v,
                Err(e) => {
                    assert(!senders_compile(sv)) by {
                        assert(!all_compile(sv[j as int].1));
                    }
                    return Err(e);
                },
            };
            let ghost before = rules@;
            rules.push(SenderRule { from: senders[j].0.clone(), blocks: sender_blocks });
            assert(sender_rule_views(rules@) =~= sender_rule_views(before).push(sv[j as int]));
            assert(sv.take(j + 1) =~= sv.take(j as int).push(sv[j as int]));
            assert forall|i: int| 0 <= i < j + 1 implies all_compile(#[trigger] sv.take(j + 1)[i].1) by {
                if i < j {
                    assert(sv.take(j + 1)[i] == sv.take(j as int)[i]);
                }
            }
            j = j + 1;
        }
        assert(sender_views(senders@).take(senders.len() as int) =~= sender_views(senders@));
        Ok(RuleSet { searches: qs, global_blocks, global_lines, sender_rules: rules })
    }

    /// The global block rules' texts.
    pub open spec fn global_block_texts(&self) -> Seq<Seq<char>> {
        rule_texts(self.global_blocks@)
    }

    /// The global line rules' texts.
    pub open spec fn global_line_texts(&self) -> Seq<Seq<char>> {
        text_views(self.global_lines@)
    }

    /// What the inbound filter makes of `body` from `header`: carriage returns
    /// stripped, blocks dropped by the global and the sender's block rules,
    /// then lines dropped by the global line rules.
    pub open spec fn inbound_spec(&self, header: Seq<char>, body: Seq<char>) -> Seq<char> {
        line_pass(
            block_pass(
                strip_cr(body),
                self.global_block_texts(),
                sender_blocks(self.sender_rules@, header),
            ),
            self.global_line_texts(),
        )
    }

    /// What the sender-only filter makes of `body` from `header`: carriage
    /// returns stripped and blocks dropped by the sender's block rules alone.
    pub open spec fn sender_only_spec(&self, header: Seq<char>, body: Seq<char>) -> Seq<char> {
        block_pass(strip_cr(body), Seq::empty(), sender_blocks(self.sender_rules@, header))
    }

    /// Filters an inbound message's `body`, sent from `header`, with the global
    /// block rules, the block rules of the sender rule that applies, and the
    /// global line rules.
    pub fn filter_message(&self, header: &str, body: &str) -> (r: String)
        ensures
            r@ == self.inbound_spec(header@, body@),
    {
        let none: Vec<BlockRule> = Vec::new();
        let chosen = resolve_sender(header, &self.sender_rules);
        let sender: &Vec<BlockRule> = match chosen {
            Some(i) => &self.sender_rules[i].blocks,
            None => &none,
        };
        assert(rule_texts(sender@) == sender_blocks(self.sender_rules@, header@)) by {
            if chosen is None {
                assert(rule_texts(none@) =~= Seq::<Seq<char>>::empty());
            }
        }
        let text = strip_cr_exec(&chars_of(body));
        let kept = keep_blocks(&text, &self.global_blocks, sender);
        let out = drop_lines(&kept, &self.global_lines);
        string_of(&out)
    }

    /// Filters `body`, sent from `header`, with the block rules of the sender
    /// rule that applies only: global rules take no part.
    pub fn filter_for_sender(&self, header: &str, body: &str) -> (r: String)
        ensures
            r@ == self.sender_only_spec(header@, body@),
    {
        let none: Vec<BlockRule> = Vec::new();
        let chosen = resolve_sender(header, &self.sender_rules);
        let sender: &Vec<BlockRule> = match chosen {
            Some(i) => &self.sender_rules[i].blocks,
            None => &none,
        };
        assert(rule_texts(sender@) == sender_blocks(self.sender_rules@, header@)) by {
            if chosen is None {
                assert(rule_texts(none@) =~= Seq::<Seq<char>>::empty());
            }
        }
        assert(rule_texts(none@) =~= Seq::<Seq<char>>::empty());
        let text = strip_cr_exec(&chars_of(body));
        let kept = keep_blocks(&text, &none, sender);
        string_of(&kept)
    }
}

/// When no block rule discards any block of a body and no line rule names any
/// line that the block pass hands on, both filters give the body with its
/// carriage returns stripped, followed by one blank-line delimiter.
pub proof fn lemma_no_match_passthrough(rules: &RuleSet, header: Seq<char>, body: Seq<char>)
    requires
        forall|i: int|
            0 <= i < split_blocks(strip_cr(body)).len() ==> block_kept(
                rules.global_block_texts(),
                sender_blocks(rules.sender_rules@, header),
                #[trigger] split_blocks(strip_cr(body))[i],
            ),
        forall|i: int|
            0 <= i < lines(strip_cr(body) + blank_delim()).len() ==> !rules.global_line_texts().contains(
                #[trigger] lines(strip_cr(body) + blank_delim())[i],
            ),
    ensures
        rules.inbound_spec(header, body) == strip_cr(body) + blank_delim(),
        rules.sender_only_spec(header, body) == strip_cr(body) + blank_delim(),
{
    let s = strip_cr(body);
    let g = rules.global_block_texts();
    let sb = sender_blocks(rules.sender_rules@, header);
    lemma_filter_keeps_all(split_blocks(s), |b: Seq<char>| block_kept(g, sb, b));
    lemma_split_blocks_join(s);
    assert(block_pass(s, g, sb) == s + blank_delim());
    let t = s + blank_delim();
    let listed = rules.global_line_texts();
    lemma_filter_keeps_all(lines(t), |l: Seq<char>| !listed.contains(l));
    lemma_lines_join(t);
    assert forall|i: int| 0 <= i < split_blocks(s).len() implies block_kept(
        Seq::empty(),
        sb,
        #[trigger] split_blocks(s)[i],
    ) by {
        assert(block_kept(g, sb, split_blocks(s)[i]));
    }
    lemma_filter_keeps_all(split_blocks(s), |b: Seq<char>| block_kept(Seq::empty(), sb, b));
}

/// A block that the block pass keeps is kept again, unchanged, when it is
/// filtered a second time with the same rules.
pub proof fn lemma_kept_block_survives(
    text: Seq<char>,
    global: Seq<Seq<char>>,
    sender: Seq<Seq<char>>,
    k: int,
)
    requires
        0 <= k < kept_blocks(text, global, sender).len(),
    ensures
        block_pass(kept_blocks(text, global, sender)[k], global, sender) == kept_blocks(
            text,
            global,
            sender,
        )[k] + blank_delim(),
{
    let pred = |b: Seq<char>| block_kept(global, sender, b);
    let all = split_blocks(text);
    let b = kept_blocks(text, global, sender)[k];
    all.lemma_filter_pred(pred, k);
    assert(all.filter(pred).contains(b));
    all.lemma_filter_contains_rev(pred, b);
    let i = choose|i: int| 0 <= i < all.len() && all[i] == b;
    lemma_split_blocks_pieces(text);
    assert(split_blocks(all[i]) == seq![all[i]]);
    assert(pred(b));
    lemma_filter_keeps_all(seq![b], pred);
    lemma_join_front(b, Seq::empty(), blank_delim());
    assert(seq![b] + Seq::<Seq<char>>::empty() =~= seq![b]);
    assert(b + blank_delim() + Seq::<char>::empty() =~= b + blank_delim());
}

/// A non-empty line that the line pass keeps is kept again, unchanged, when
/// it is filtered a second time with the same line rules.
pub proof fn lemma_kept_line_survives(text: Seq<char>, line_rules: Seq<Seq<char>>, k: int)
    requires
        0 <= k < lines(text).filter(|l: Seq<char>| !line_rules.contains(l)).len(),
        lines(text).filter(|l: Seq<char>| !line_rules.contains(l))[k].len() > 0,
    ensures
        line_pass(lines(text).filter(|l: Seq<char>| !line_rules.contains(l))[k], line_rules)
            == lines(text).filter(|l: Seq<char>| !line_rules.contains(l))[k] + newline(),
{
    let pred = |l: Seq<char>| !line_rules.contains(l);
    let all = lines(text);
    let l = all.filter(pred)[k];
    all.lemma_filter_pred(pred, k);
    assert(all.filter(pred).contains(l));
    all.lemma_filter_contains_rev(pred, l);
    let i = choose|i: int| 0 <= i < all.len() && all[i] == l;
    lemma_lines_pieces(text);
    assert forall|j: int| 0 <= j < l.len() implies l[j] != '\n' by {
        assert(all[i][j] != '\n');
    }
    lemma_lines_pieces(l);
    lemma_filter_keeps_all(seq![l], pred);
    lemma_join_front(l, Seq::empty(), newline());
    assert(seq![l] + Seq::<Seq<char>>::empty() =~= seq![l]);
    assert(l + newline() + Seq::<char>::empty() =~= l + newline());
}

/// The blocks of `text` that neither `global` nor `sender` rules discard,
/// each followed by the blank-line delimiter.
pub fn keep_blocks(text: &Vec<char>, global: &Vec<BlockRule>, sender: &Vec<BlockRule>) -> (r: Vec<
    char,
>)
    ensures
        r@ == block_pass(text@, rule_texts(global@), rule_texts(sender@)),
{
    let blocks = split_blocks_exec(text);
    let ghost all = split_blocks(text@);
    let ghost g = rule_texts(global@);
    let ghost s = rule_texts(sender@);
    let ghost pred = |b: Seq<char>| block_kept(g, s, b);
    let mut out: Vec<char> = Vec::new();
    let mut k: usize = 0;
    proof {
        reveal(Seq::filter);
        assert(all.take(0) =~= Seq::<Seq<char>>::empty());
        assert(all.take(0).filter(pred) =~= Seq::<Seq<char>>::empty());
    }
    while k < blocks.len()
        invariant
            k <= blocks.len(),
            views(blocks@) == all,
            all == split_blocks(text@),
            pred == (|b: Seq<char>| block_kept(rule_texts(global@), rule_texts(sender@), b)),
            out@ == join_terminated(all.take(k as int).filter(pred), blank_delim()),
        decreases blocks.len() - k,
    {
        let ghost before = all.take(k as int).filter(pred);
        proof {
            reveal(Seq::filter);
            assert(all.take(k + 1).drop_last() =~= all.take(k as int));
            assert(all.take(k + 1).last() == blocks@[k as int]@);
        }
        let hit = matches_chars(&blocks[k], global) || matches_chars(&blocks[k], sender);
        let ghost b = blocks@[k as int]@;
        assert(pred(b) == !hit);
        if !hit {
            let ghost prev = out@;
            append_chars(&mut out, &blocks[k]);
            out.push('\n');
            out.push('\n');
            proof {
                reveal(Seq::filter);
                assert(all.take(k + 1).filter(pred) == before.push(b));
                assert(before.push(b).drop_last() =~= before);
                assert(out@ =~= prev + b + blank_delim());
            }
        } else {
            proof {
                reveal(Seq::filter);
                assert(all.take(k + 1).filter(pred) == before);
            }
        }
        k = k + 1;
    }
    assert(all.take(blocks.len() as int) =~= all);
    out
}

/// Whether `line` equals one of `rules`.
pub fn line_listed(line: &Vec<char>, rules: &Vec<String>) -> (r: bool)
    ensures
        r == text_views(rules@).contains(line@),
{
    let mut k: usize = 0;
    while k < rules.len()
        invariant
            k <= rules.len(),
            forall|t: int| 0 <= t < k ==> rules@[t]@ != line@,
        decreases rules.len() - k,
    {
        let rule = chars_of(rules[k].as_str());
        if chars_equal(&rule, line) {
            assert(text_views(rules@)[k as int] == line@);
            return true;
        }
        k = k + 1;
    }
    assert forall|t: int| 0 <= t < rules.len() implies text_views(rules@)[t] != line@ by {
        assert(text_views(rules@)[t] == rules@[t]@);
    }
    false
}

/// The lines of `text` that equal none of `rules`, each followed by a newline.
pub fn drop_lines(text: &Vec<char>, rules: &Vec<String>) -> (r: Vec<char>)
    ensures
        r@ == line_pass(text@, text_views(rules@)),
{
    let ls = lines_exec(text);
    let ghost all = lines(text@);
    let ghost listed = text_views(rules@);
    let ghost pred = |l: Seq<char>| !listed.contains(l);
    let mut out: Vec<char> = Vec::new();
    let mut k: usize = 0;
    proof {
        reveal(Seq::filter);
        assert(all.take(0) =~= Seq::<Seq<char>>::empty());
        assert(all.take(0).filter(pred) =~= Seq::<Seq<char>>::empty());
    }
    while k < ls.len()
        invariant
            k <= ls.len(),
            views(ls@) == all,
            all == lines(text@),
            listed == text_views(rules@),
            pred == (|l: Seq<char>| !text_views(rules@).contains(l)),
            out@ == join_terminated(all.take(k as int).filter(pred), newline()),
        decreases ls.len() - k,
    {
        let ghost before = all.take(k as int).filter(pred);
        proof {
            reveal(Seq::filter);
            assert(all.take(k + 1).drop_last() =~= all.take(k as int));
            assert(all.take(k + 1).last() == ls@[k as int]@);
        }
        let listed_here = line_listed(&ls[k], rules);
        let ghost l = ls@[k as int]@;
        assert(pred(l) == !listed_here);
        if !listed_here {
            let ghost prev = out@;
            append_chars(&mut out, &ls[k]);
            out.push('\n');
            proof {
                reveal(Seq::filter);
                assert(all.take(k + 1).filter(pred) == before.push(l));
                assert(before.push(l).drop_last() =~= before);
                assert(out@ =~= prev + l + newline());
            }
        } else {
            proof {
                reveal(Seq::filter);
                assert(all.take(k + 1).filter(pred) == before);
            }
        }
        k = k + 1;
    }
    assert(all.take(ls.len() as int) =~= all);
    out
}

/// The lines of `text`, with each run of blank lines collapsed to one: what
/// is shown of a filtered body.
pub fn output_lines(text: &str) -> (r: Vec<String>)
    ensures
        text_views(r@) == normalize(lines(text@)),
{
    let ls = lines_exec(&chars_of(text));
    let mut strs: Vec<String> = Vec::new();
    let mut k: usize = 0;
    while k < ls.len()
        invariant
            k <= ls.len(),
            text_views(strs@) == views(ls@).take(k as int),
        decreases ls.len() - k,
    {
        let ghost prev = strs@;
        let line = string_of(&ls[k]);
        strs.push(line);
        assert(views(ls@)[k as int] == ls@[k as int]@);
        assert(text_views(strs@) =~= text_views(prev).push(line@));
        assert(views(ls@).take(k + 1) =~= views(ls@).take(k as int).push(ls@[k as int]@));
        k = k + 1;
    }
    assert(views(ls@).take(ls.len() as int) =~= views(ls@));
    normalize_lines(&strs)
}

} // verus!
