//! Per-sender rules: choosing the rule that applies to a From header, and the
//! mailbox search query built from the sender searches.
use vstd::prelude::*;
use crate::matcher::BlockRule;
use crate::text::{append_chars, chars_of, contains, contains_exec, string_of};

verus! {

/// A sender whose unseen messages the mailbox search looks for.
#[derive(Debug)]
pub struct SenderQuery {
    pub from: String,
}

/// Block rules that apply to messages whose From header contains `from`.
#[derive(Debug)]
pub struct SenderRule {
    pub from: String,
    pub blocks: Vec<BlockRule>,
}

/// The sender substrings of a sequence of sender rules.
pub open spec fn rule_froms(rules: Seq<SenderRule>) -> Seq<Seq<char>> {
    rules.map_values(|r: SenderRule| r.from@)
}

/// The index of the last of `froms` that occurs in `header`, if any.
pub open spec fn last_match(header: Seq<char>, froms: Seq<Seq<char>>) -> Option<int>
    decreases froms.len(),
{
    if froms.len() == 0 {
        None
    } else if contains(header, froms.last()) {
        Some(froms.len() - 1)
    } else {
        last_match(header, froms.drop_last())
    }
}

/// One search clause: `FROM <from> UNSEEN`.
pub open spec fn search_clause(from: Seq<char>) -> Seq<char> {
    seq!['F', 'R', 'O', 'M', ' '] + from + seq![' ', 'U', 'N', 'S', 'E', 'E', 'N']
}

/// The search clauses joined by ` OR `; no senders give the empty query.
pub open spec fn search_query_spec(froms: Seq<Seq<char>>) -> Seq<char>
    decreases froms.len(),
{
    if froms.len() == 0 {
        Seq::empty()
    } else if froms.len() == 1 {
        search_clause(froms[0])
    } else {
        search_query_spec(froms.drop_last()) + seq![' ', 'O', 'R', ' '] + search_clause(
            froms.last(),
        )
    }
}

/// The sender substrings of a sequence of sender queries.
pub open spec fn query_froms(qs: Seq<SenderQuery>) -> Seq<Seq<char>> {
    qs.map_values(|q: SenderQuery| q.from@)
}

/// The index of the sender rule that applies to `header`: the last one, in
/// declaration order, whose substring occurs in it; `None` when none does.
pub fn resolve_sender(header: &str, rules: &Vec<SenderRule>) -> (r: Option<usize>)
    ensures
        r matches Some(i) ==> last_match(header@, rule_froms(rules@)) == Some(i as int),
        r is None ==> last_match(header@, rule_froms(rules@)) is None,
        r matches Some(i) ==> i < rules.len() && contains(header@, rules@[i as int].from@) && (
        forall|k: int| i < k < rules.len() ==> !contains(header@, #[trigger] rules@[k].from@)),
        r is None ==> forall|k: int|
            0 <= k < rules.len() ==> !contains(header@, #[trigger] rules@[k].from@),
{
    let h = chars_of(header);
    let mut sel: Option<usize> = None;
    let mut i: usize = 0;
    let ghost froms = rule_froms(rules@);
    assert(froms.take(0) =~= Seq::<Seq<char>>::empty());
    while i < rules.len()
        invariant
            i <= rules.len(),
            h@ == header@,
            froms == rule_froms(rules@),
            sel matches Some(s) ==> last_match(header@, froms.take(i as int)) == Some(s as int),
            sel is None ==> last_match(header@, froms.take(i as int)) is None,
            sel matches Some(s) ==> s < i && contains(header@, rules@[s as int].from@) && (
            forall|k: int| s < k < i ==> !contains(header@, #[trigger] rules@[k].from@)),
            sel is None ==> forall|k: int|
                0 <= k < i ==> !contains(header@, #[trigger] rules@[k].from@),
        decreases rules.len() - i,
    {
        let f = chars_of(rules[i].from.as_str());
        proof {
            assert(froms.take(i + 1).drop_last() =~= froms.take(i as int));
            assert(froms.take(i + 1).last() == rules@[i as int].from@);
        }
        if contains_exec(&h, &f) {
            sel = Some(i);
        }
        i = i + 1;
    }
    assert(froms.take(rules.len() as int) =~= froms);
    sel
}

/// The From header as the filter sees it: `<name> <<address>>`, the name
/// empty where the message gives none.
pub fn sender_header(name: &str, address: &str) -> (r: String)
    ensures
        r@ == name@ + seq![' ', '<'] + address@ + seq!['>'],
{
    let mut out = chars_of(name);
    out.push(' ');
    out.push('<');
    append_chars(&mut out, &chars_of(address));
    out.push('>');
    string_of(&out)
}

/// The mailbox search query: `FROM <from> UNSEEN` for each sender, joined by
/// ` OR `; empty when there are no senders, which asks for all unseen messages.
pub fn search_query(searches: &Vec<SenderQuery>) -> (r: String)
    ensures
        r@ == search_query_spec(query_froms(searches@)),
{
    let mut out: Vec<char> = Vec::new();
    let ghost froms = query_froms(searches@);
    let mut i: usize = 0;
    assert(froms.take(0) =~= Seq::<Seq<char>>::empty());
    while i < searches.len()
        invariant
            i <= searches.len(),
            froms == query_froms(searches@),
            out@ == search_query_spec(froms.take(i as int)),
        decreases searches.len() - i,
    {
        let f = chars_of(searches[i].from.as_str());
        let ghost before = out@;
        if i > 0 {
            let sep: Vec<char> = vec![' ', 'O', 'R', ' '];
            append_chars(&mut out, &sep);
        }
        let head: Vec<char> = vec!['F', 'R', 'O', 'M', ' '];
        let tail: Vec<char> = vec![' ', 'U', 'N', 'S', 'E', 'E', 'N'];
        append_chars(&mut out, &head);
        append_chars(&mut out, &f);
        append_chars(&mut out, &tail);
        proof {
            let t = froms.take(i + 1);
            assert(t.drop_last() =~= froms.take(i as int));
            assert(t.last() == f@);
            if i == 0 {
                assert(out@ =~= search_clause(f@));
                assert(t =~= seq![f@]);
            } else {
                assert(out@ =~= before + seq![' ', 'O', 'R', ' '] + search_clause(f@));
            }
        }
        i = i + 1;
    }
    assert(froms.take(searches.len() as int) =~= froms);
    string_of(&out)
}

} // verus!
