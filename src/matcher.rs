//! Block rules and the block matcher: a rule discards a paragraph when the
//! two are equal after trimming, or when the rule, read as a pattern with its
//! `<url>` placeholder expanded, matches at the end of the trimmed paragraph.
use vstd::prelude::*;
use crate::text::{
    append_chars, chars_equal, chars_of, occurs_at, occurs_at_exec, string_of, text_views, trim,
    trim_chars,
};

verus! {

/// The placeholder that stands for any URL in a block rule.
pub open spec fn url_token() -> Seq<char> {
    seq!['<', 'u', 'r', 'l', '>']
}

/// The pattern the placeholder expands to: `http` or `https`, `://`, then
/// one or more non-space characters.
pub open spec fn url_pattern() -> Seq<char> {
    seq!['h', 't', 't', 'p', '[', 's', ']', '*', ':', '/', '/', '\\', 'S', '+']
}

/// `s` with each placeholder, found left to right, replaced by the URL pattern.
pub open spec fn expand_url(s: Seq<char>) -> Seq<char>
    decreases s.len(),
{
    if s.len() == 0 {
        Seq::empty()
    } else if occurs_at(s, url_token(), 0) {
        url_pattern() + expand_url(s.skip(5))
    } else {
        seq![s[0]] + expand_url(s.skip(1))
    }
}

/// The pattern a block rule compiles to: the trimmed rule with its
/// placeholders expanded, anchored at the end of the text.
pub open spec fn rule_pattern(rule: Seq<char>) -> Seq<char> {
    expand_url(trim(rule)).push('$')
}

/// Whether the regex crate accepts `pattern`.
pub uninterp spec fn pattern_compiles(pattern: Seq<char>) -> bool;

/// Whether `pattern`, compiled by the regex crate, matches somewhere in `text`.
pub uninterp spec fn pattern_finds(pattern: Seq<char>, text: Seq<char>) -> bool;

/// Whether a single rule discards a block.
pub open spec fn rule_hits(rule: Seq<char>, block: Seq<char>) -> bool {
    trim(rule) == trim(block) || pattern_finds(rule_pattern(rule), trim(block))
}

/// Whether any of `rules` discards a block.
pub open spec fn any_rule_hits(rules: Seq<Seq<char>>, block: Seq<char>) -> bool {
    exists|k: int| 0 <= k < rules.len() && rule_hits(#[trigger] rules[k], block)
}

/// The texts of a sequence of block rules.
pub open spec fn rule_texts(rules: Seq<BlockRule>) -> Seq<Seq<char>> {
    rules.map_values(|r: BlockRule| r@)
}

#[verifier::external_type_specification]
#[verifier::external_body]
pub struct ExRegexError(regex::Error);

/// Relies on `regex::Regex::new`, which compiles `pattern` or reports why it
/// cannot, and on `regex::Regex::is_match`, which tells whether the compiled
/// pattern matches somewhere in `text`.
#[verifier::external_body]
fn regex_search(pattern: &Vec<char>, text: &Vec<char>) -> (r: Result<bool, regex::Error>)
    ensures
        r is Ok == pattern_compiles(pattern@),
        r matches Ok(b) ==> b == pattern_finds(pattern@, text@),
{
    let p: String = pattern.iter().collect();
    let t: String = text.iter().collect();
    match regex::Regex::new(&p) {
        Ok(re) => Ok(re.is_match(&t)),
        Err(e) => Err(e),
    }
}

/// A block rule that failed to compile, with its text.
#[derive(Debug)]
pub enum RuleError {
    InvalidPattern(String),
}

/// A block rule whose pattern is known to compile.
#[derive(Debug)]
pub struct BlockRule {
    text: Vec<char>,
}

impl View for BlockRule {
    type V = Seq<char>;

    closed spec fn view(&self) -> Seq<char> {
        self.text@
    }
}

impl BlockRule {
    #[verifier::type_invariant]
    spec fn compiles(&self) -> bool {
        pattern_compiles(rule_pattern(self.text@))
    }

    /// Makes a rule of `text`, or reports that its pattern does not compile.
    pub fn new(text: &str) -> (r: Result<BlockRule, RuleError>)
        ensures
            r is Ok == pattern_compiles(rule_pattern(text@)),
            r matches Ok(rule) ==> rule@ == text@,
            r matches Err(RuleError::InvalidPattern(t)) ==> t@ == text@,
    {
        let chars = chars_of(text);
        let pattern = compile_pattern(&chars);
        let empty: Vec<char> = Vec::new();
        match regex_search(&pattern, &empty) {
            Ok(_) => Ok(BlockRule { text: chars }),
            Err(_) => Err(RuleError::InvalidPattern(string_of(&chars))),
        }
    }

    /// The rule's text.
    pub fn text(&self) -> (r: String)
        ensures
            r@ == self@,
    {
        string_of(&self.text)
    }

    /// Whether this rule discards `block`.
    pub fn hits(&self, block: &Vec<char>) -> (r: bool)
        ensures
            r == rule_hits(self@, block@),
    {
        proof {
            use_type_invariant(self);
        }
        let rule = trim_chars(&self.text);
        let trimmed = trim_chars(block);
        if chars_equal(&rule, &trimmed) {
            return true;
        }
        let pattern = compile_pattern(&self.text);
        match regex_search(&pattern, &trimmed) {
            Ok(found) => found,
            Err(_) => false,
        }
    }
}

/// Every one of `texts` makes a block rule whose pattern compiles.
pub open spec fn all_compile(texts: Seq<Seq<char>>) -> bool {
    forall|i: int| 0 <= i < texts.len() ==> pattern_compiles(rule_pattern(#[trigger] texts[i]))
}

/// Makes a block rule of each of `texts`, in order, or reports the first
/// whose pattern does not compile.
pub fn build_block_rules(texts: &Vec<String>) -> (r: Result<Vec<BlockRule>, RuleError>)
    ensures
        r is Ok == all_compile(text_views(texts@)),
        r matches Ok(v) ==> rule_texts(v@) == text_views(texts@),
        r matches Err(RuleError::InvalidPattern(t)) ==> exists|i: int|
            0 <= i < texts.len() && (#[trigger] texts@[i])@ == t@ && !pattern_compiles(
                rule_pattern(t@),
            ),
{
    let mut out: Vec<BlockRule> = Vec::new();
    let mut k: usize = 0;
    while k < texts.len()
        invariant
            k <= texts.len(),
            rule_texts(out@) == text_views(texts@).take(k as int),
            all_compile(text_views(texts@).take(k as int)),
        decreases texts.len() - k,
    {
        assert(text_views(texts@)[k as int] == texts@[k as int]@);
        match BlockRule::new(texts[k].as_str()) {
            Ok(rule) => {
                let ghost before = out@;
                out.push(rule);
                assert(rule_texts(out@) =~= rule_texts(before).push(texts@[k as int]@));
                assert(text_views(texts@).take(k + 1) =~= text_views(texts@).take(k as int).push(
                    texts@[k as int]@,
                ));
                assert forall|i: int| 0 <= i < k + 1 implies pattern_compiles(
                    rule_pattern(#[trigger] text_views(texts@).take(k + 1)[i]),
                ) by {
                    if i < k {
                        assert(text_views(texts@).take(k + 1)[i] == text_views(texts@).take(
                            k as int,
                        )[i]);
                    }
                }
            },
            Err(e) => {
                assert(!all_compile(text_views(texts@))) by {
                    assert(!pattern_compiles(rule_pattern(text_views(texts@)[k as int])));
                }
                return Err(e);
            },
        }
        k = k + 1;
    }
    assert(text_views(texts@).take(texts.len() as int) =~= text_views(texts@));
    Ok(out)
}

/// `s` with each placeholder replaced by the URL pattern.
pub fn expand_url_exec(s: &Vec<char>) -> (r: Vec<char>)
    ensures
        r@ == expand_url(s@),
{
    let token: Vec<char> = vec!['<', 'u', 'r', 'l', '>'];
    let pat: Vec<char> = vec!['h', 't', 't', 'p', '[', 's', ']', '*', ':', '/', '/', '\\', 'S', '+'];
    assert(token@ == url_token());
    assert(pat@ == url_pattern());
    let n = s.len();
    let mut out: Vec<char> = Vec::new();
    let mut i: usize = 0;
    assert(s@.skip(0) =~= s@);
    while i < n
        invariant
            i <= n == s.len(),
            token@ == url_token(),
            pat@ == url_pattern(),
            out@ + expand_url(s@.skip(i as int)) == expand_url(s@),
        decreases n - i,
    {
        let ghost rest = s@.skip(i as int);
        if n >= 5 && i <= n - 5 && occurs_at_exec(s, &token, i) {
            proof {
                assert(rest.subrange(0, 5) =~= s@.subrange(i as int, i + 5));
                assert(rest.skip(5) =~= s@.skip(i + 5));
                assert(out@ + (url_pattern() + expand_url(rest.skip(5))) =~= out@ + url_pattern()
                    + expand_url(rest.skip(5)));
            }
            append_chars(&mut out, &pat);
            i = i + 5;
        } else {
            proof {
                if i + 5 <= n {
                    assert(rest.subrange(0, 5) =~= s@.subrange(i as int, i + 5));
                }
                assert(!occurs_at(rest, url_token(), 0));
                assert(rest.skip(1) =~= s@.skip(i + 1));
                assert(out@ + (seq![s@[i as int]] + expand_url(rest.skip(1))) =~= out@.push(
                    s@[i as int],
                ) + expand_url(rest.skip(1)));
            }
            out.push(s[i]);
            i = i + 1;
        }
    }
    assert(s@.skip(n as int) =~= Seq::<char>::empty());
    assert(out@ + Seq::<char>::empty() =~= out@);
    out
}

/// The end-anchored pattern a block rule compiles to.
pub fn compile_pattern(rule: &Vec<char>) -> (r: Vec<char>)
    ensures
        r@ == rule_pattern(rule@),
{
    let trimmed = trim_chars(rule);
    let mut r = expand_url_exec(&trimmed);
    r.push('$');
    r
}

/// Whether any of `rules` discards `block`; rules are tried in order and the
/// first that hits decides.
pub fn matches_chars(block: &Vec<char>, rules: &Vec<BlockRule>) -> (r: bool)
    ensures
        r == any_rule_hits(rule_texts(rules@), block@),
{
    let mut k: usize = 0;
    while k < rules.len()
        invariant
            k <= rules.len(),
            forall|t: int| 0 <= t < k ==> !rule_hits(#[trigger] rules@[t]@, block@),
        decreases rules.len() - k,
    {
        if rules[k].hits(block) {
            assert(rule_texts(rules@)[k as int] == rules@[k as int]@);
            return true;
        }
        k = k + 1;
    }
    assert forall|t: int| 0 <= t < rules.len() implies !rule_hits(
        #[trigger] rule_texts(rules@)[t],
        block@,
    ) by {
        assert(rule_texts(rules@)[t] == rules@[t]@);
    }
    false
}

/// Whether any of `rules` discards `block`. A block equal to a rule once both
/// are trimmed is always discarded.
pub fn block_matches(block: &str, rules: &Vec<BlockRule>) -> (r: bool)
    ensures
        r == any_rule_hits(rule_texts(rules@), block@),
        (exists|k: int| 0 <= k < rules.len() && trim(#[trigger] rules@[k]@) == trim(block@)) ==> r,
{
    let chars = chars_of(block);
    let r = matches_chars(&chars, rules);
    proof {
        if exists|k: int| 0 <= k < rules.len() && trim(#[trigger] rules@[k]@) == trim(block@) {
            let k = choose|k: int| 0 <= k < rules.len() && trim(#[trigger] rules@[k]@) == trim(block@);
            assert(rule_texts(rules@)[k] == rules@[k]@);
            assert(rule_hits(rule_texts(rules@)[k], block@));
        }
    }
    r
}

} // verus!
