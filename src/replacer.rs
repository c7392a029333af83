use crate::error::ErrorKind;
use crate::rules::{
    alternation, combined_pattern, longest_first, sort_by_len, sort_rules, strings_view, SubstitutionRule,
};
use regex::Regex;
use vstd::prelude::*;

verus! {

#[verifier::external_type_specification]
#[verifier::external_body]
pub struct ExRegex(regex::Regex);

/// Whether `regex::Regex::new` compiles the pattern.
pub uninterp spec fn regex_accepts(pattern: Seq<char>) -> bool;

/// The pattern text a compiled regex was built from, as `regex::Regex::as_str` gives it.
pub uninterp spec fn regex_source(re: Regex) -> Seq<char>;

/// The pieces of `text` between successive matches of `pattern`, as `regex::Regex::split`
/// yields them.
pub uninterp spec fn regex_split(pattern: Seq<char>, text: Seq<char>) -> Seq<Seq<char>>;

/// The successive non-overlapping matches of `pattern` in `text`, each given as the text
/// of every capture group (group 0 being the whole match), as `regex::Regex::captures_iter`
/// yields them.
pub uninterp spec fn regex_captures(pattern: Seq<char>, text: Seq<char>) -> Seq<
    Seq<Option<Seq<char>>>,
>;

pub open spec fn groups_view(c: Seq<Option<String>>) -> Seq<Option<Seq<char>>> {
    c.map_values(
        |g: Option<String>|
            match g {
                Some(s) => Some(s@),
                None => None,
            },
    )
}

pub open spec fn captures_view(v: Seq<Vec<Option<String>>>) -> Seq<Seq<Option<Seq<char>>>> {
    v.map_values(|c: Vec<Option<String>>| groups_view(c@))
}

/// The whole text of one match: its group 0.
pub open spec fn whole_match(caps: Seq<Option<Seq<char>>>) -> Seq<char> {
    if caps.len() > 0 && caps[0] is Some {
        caps[0]->Some_0
    } else {
        Seq::empty()
    }
}

/// `pieces[0] + reps[0] + pieces[1] + ... + reps[n-1] + pieces[n]`.
pub open spec fn splice(pieces: Seq<Seq<char>>, reps: Seq<Seq<char>>) -> Seq<char>
    decreases reps.len(),
{
    if reps.len() == 0 {
        if pieces.len() > 0 {
            pieces[0]
        } else {
            Seq::empty()
        }
    } else {
        splice(pieces.drop_last(), reps.drop_last()) + reps.last() + pieces.last()
    }
}

/// Relies on `regex::Regex::new`: it compiles the pattern or reports that it cannot, and
/// the compiled regex keeps the pattern text.
#[verifier::external_body]
fn compile(pattern: &str) -> (r: Option<Regex>)
    ensures
        r is Some <==> regex_accepts(pattern@),
        r is Some ==> regex_source(r->Some_0) == pattern@,
{
    Regex::new(pattern).ok()
}

/// The number of capture groups of `pattern` compiled alone, as `regex::Regex::captures_len`
/// counts them: the implicit group of the whole match and the pattern's own groups.
pub uninterp spec fn regex_group_count(pattern: Seq<char>) -> nat;

/// Relies on `regex::Regex::captures_len`: the number of capture groups, the implicit group
/// of the whole match included, so at least one.
#[verifier::external_body]
fn group_count(re: &Regex) -> (r: usize)
    ensures
        r as nat == regex_group_count(regex_source(*re)),
        r >= 1,
{
    re.captures_len()
}

/// Relies on `regex::Regex::captures_iter`: the successive non-overlapping matches, each
/// with the text of every group; group 0, the whole match, always takes part.
#[verifier::external_body]
fn capture_groups(re: &Regex, text: &str) -> (r: Vec<Vec<Option<String>>>)
    ensures
        captures_view(r@) == regex_captures(regex_source(*re), text@),
        forall|k: int| 0 <= k < r@.len() ==> (#[trigger] r@[k])@.len() >= 1 && r@[k]@[0] is Some,
{
    re.captures_iter(text).map(|c| c.iter().map(|g| g.map(|m| m.as_str().to_string())).collect()).collect()
}

/// Relies on `regex::Regex::split`: the pieces between successive matches, one more than
/// there are matches, which put back together with the matches give the text.
#[verifier::external_body]
fn split_pieces(re: &Regex, text: &str) -> (r: Vec<String>)
    ensures
        strings_view(r@) == regex_split(regex_source(*re), text@),
        r@.len() == regex_captures(regex_source(*re), text@).len() + 1,
        splice(
            strings_view(r@),
            regex_captures(regex_source(*re), text@).map_values(
                |c: Seq<Option<Seq<char>>>| whole_match(c),
            ),
        ) == text@,
{
    re.split(text).map(|p| p.to_string()).collect()
}

/// The number of the capture group that wraps rule `i`'s pattern in the alternation. Group 0
/// is the whole match; each earlier rule takes its wrapping group and the groups of its own
/// pattern, which together are as many as that pattern's group count alone.
pub open spec fn rule_group(rules: Seq<SubstitutionRule>, i: int) -> nat
    decreases i,
{
    if i <= 0 {
        1
    } else {
        rule_group(rules, i - 1) + regex_group_count(rules[i - 1].pattern@)
    }
}

/// Whether the wrapping group of rule `i` took part in a match.
pub open spec fn rule_matched(rules: Seq<SubstitutionRule>, caps: Seq<Option<Seq<char>>>, i: int) -> bool {
    rule_group(rules, i) < caps.len() && caps[rule_group(rules, i) as int] is Some
}

/// What one match is rewritten into: the placeholder of the first rule, from `i` on, whose
/// own wrapping group took part in it; the match itself if there is none.
pub open spec fn replacement_of(
    rules: Seq<SubstitutionRule>,
    caps: Seq<Option<Seq<char>>>,
    i: int,
) -> Seq<char>
    decreases rules.len() - i,
{
    if i < 0 || i >= rules.len() {
        whole_match(caps)
    } else if rule_matched(rules, caps, i) {
        rules[i].replacement@
    } else {
        replacement_of(rules, caps, i + 1)
    }
}

/// Whether the wrapping group of some rule took part in a match.
pub open spec fn rule_takes_part(rules: Seq<SubstitutionRule>, caps: Seq<Option<Seq<char>>>) -> bool {
    exists|i: int| 0 <= i < rules.len() && #[trigger] rule_matched(rules, caps, i)
}

/// Whether every pattern compiles on its own.
pub open spec fn each_pattern_compiles(rules: Seq<SubstitutionRule>) -> bool {
    forall|k: int| 0 <= k < rules.len() ==> regex_accepts(#[trigger] rules[k].pattern@)
}

/// Whether every rule's group number, and the count past the last one, fit a `usize`.
pub open spec fn group_numbers_fit(rules: Seq<SubstitutionRule>) -> bool {
    forall|j: int| 0 <= j <= rules.len() ==> #[trigger] rule_group(rules, j) <= usize::MAX
}

/// The rules compiled into one alternation, rewriting every match in a single pass.
pub struct RegexReplacer {
    combined_regex: Regex,
    rules: Vec<SubstitutionRule>,
    groups: Vec<usize>,
}

impl RegexReplacer {
    #[verifier::type_invariant]
    spec fn groups_agree(&self) -> bool {
        &&& self.groups@.len() == self.rules@.len()
        &&& forall|k: int|
            0 <= k < self.groups@.len() ==> #[trigger] self.groups@[k] as nat == rule_group(
                self.rules@,
                k,
            )
    }

    /// The rules, in the order matching tries them.
    pub closed spec fn rules_view(&self) -> Seq<SubstitutionRule> {
        self.rules@
    }

    /// The pattern text the matcher was compiled from.
    pub closed spec fn source(&self) -> Seq<char> {
        regex_source(self.combined_regex)
    }

    /// The matches found in `text`, each with the text of every capture group.
    pub open spec fn matches_in(&self, text: Seq<char>) -> Seq<Seq<Option<Seq<char>>>> {
        regex_captures(self.source(), text)
    }

    /// Whether no rule's group takes part in any match found in `text`.
    pub open spec fn no_rule_matches(&self, text: Seq<char>) -> bool {
        forall|k: int|
            0 <= k < self.matches_in(text).len() ==> !rule_takes_part(
                self.rules_view(),
                #[trigger] self.matches_in(text)[k],
            )
    }

    /// The pieces between matches, each match rewritten between them.
    pub open spec fn spliced(
        &self,
        pieces: Seq<Seq<char>>,
        matches: Seq<Seq<Option<Seq<char>>>>,
    ) -> Seq<char> {
        splice(
            pieces,
            matches.map_values(
                |c: Seq<Option<Seq<char>>>| replacement_of(self.rules_view(), c, 0),
            ),
        )
    }

    /// `text` with every match rewritten, the text between matches copied as it is.
    pub open spec fn spec_replace(&self, text: Seq<char>) -> Seq<char> {
        self.spliced(regex_split(self.source(), text), self.matches_in(text))
    }

    /// Orders the rules longest pattern first and compiles them into one alternation, each
    /// rule tied to the group that wraps its pattern. Fails with a configuration error when
    /// a pattern does not compile alone, when the group numbers do not fit, or when the
    /// alternation does not compile.
    pub fn new(rules: Vec<SubstitutionRule>) -> (r: Result<Self, ErrorKind>)
        ensures
            r is Ok <==> each_pattern_compiles(sort_by_len(rules@)) && group_numbers_fit(
                sort_by_len(rules@),
            ) && regex_accepts(alternation(sort_by_len(rules@))),
            r is Err ==> r->Err_0 == ErrorKind::Config,
            r is Ok ==> r->Ok_0.rules_view() == sort_by_len(rules@),
            r is Ok ==> r->Ok_0.source() == alternation(r->Ok_0.rules_view()),
            r is Ok ==> longest_first(r->Ok_0.rules_view()),
    {
        let ghost input = rules@;
        let sorted = sort_rules(rules);
        let mut groups: Vec<usize> = Vec::new();
        let mut next: usize = 1;
        let mut i: usize = 0;
        while i < sorted.len()
            invariant
                input == rules@,
                sorted@ == sort_by_len(input),
                i <= sorted.len(),
                groups@.len() == i,
                forall|k: int| 0 <= k < i ==> #[trigger] groups@[k] as nat == rule_group(sorted@, k),
                next as nat == rule_group(sorted@, i as int),
                forall|k: int| 0 <= k < i ==> regex_accepts(#[trigger] sorted@[k].pattern@),
                forall|j: int| 0 <= j <= i ==> #[trigger] rule_group(sorted@, j) <= usize::MAX,
            decreases sorted.len() - i,
        {
            let re = match compile(sorted[i].pattern.as_str()) {
                Some(re) => re,
                None => {
                    assert(!each_pattern_compiles(sorted@)) by {
                        assert(!regex_accepts(sorted@[i as int].pattern@));
                    }
                    return Err(ErrorKind::Config);
                },
            };
            let n = group_count(&re);
            groups.push(next);
            match next.checked_add(n) {
                Some(m) => {
                    next = m;
                },
                None => {
                    assert(!group_numbers_fit(sorted@)) by {
                        assert(rule_group(sorted@, i + 1) > usize::MAX);
                    }
                    return Err(ErrorKind::Config);
                },
            }
            i += 1;
        }
        let pattern = combined_pattern(&sorted);
        match compile(pattern.as_str()) {
            Some(combined_regex) => Ok(RegexReplacer { combined_regex, rules: sorted, groups }),
            None => Err(ErrorKind::Config),
        }
    }

    /// What the match `caps` is rewritten into.
    fn replacement_for(&self, caps: &Vec<Option<String>>) -> (r: String)
        ensures
            r@ == replacement_of(self.rules@, groups_view(caps@), 0),
    {
        proof {
            use_type_invariant(self);
        }
        let ghost g = groups_view(caps@);
        let mut i: usize = 0;
        while i < self.rules.len()
            invariant
                i <= self.rules.len(),
                self.groups@.len() == self.rules@.len(),
                forall|k: int|
                    0 <= k < self.groups@.len() ==> #[trigger] self.groups@[k] as nat
                        == rule_group(self.rules@, k),
                g == groups_view(caps@),
                replacement_of(self.rules@, g, 0) == replacement_of(self.rules@, g, i as int),
            decreases self.rules.len() - i,
        {
            let n = self.groups[i];
            assert(n as nat == rule_group(self.rules@, i as int));
            if n < caps.len() {
                if let Some(_) = &caps[n] {
                    return self.rules[i].replacement.clone();
                }
            }
            i += 1;
        }
        if caps.len() > 0 {
            match &caps[0] {
                Some(s) => s.clone(),
                None => String::new(),
            }
        } else {
            String::new()
        }
    }

    /// Puts the text back together from the pieces between matches and the matches
    /// themselves, each match rewritten into the placeholder of the rule whose own group it
    /// took, or kept as it is when no rule's group took part.
    pub fn splice_matches(&self, pieces: &Vec<String>, matches: &Vec<Vec<Option<String>>>) -> (r: String)
        requires
            pieces@.len() == matches@.len() + 1,
        ensures
            r@ == self.spliced(strings_view(pieces@), captures_view(matches@)),
    {
        let ghost ps = strings_view(pieces@);
        let ghost reps = captures_view(matches@).map_values(
            |c: Seq<Option<Seq<char>>>| replacement_of(self.rules_view(), c, 0),
        );
        let mut out = String::new();
        out.append(pieces[0].as_str());
        let mut i: usize = 0;
        proof {
            assert(ps.take(1) =~= seq![ps[0]]);
            assert(reps.take(0).len() == 0);
        }
        while i < matches.len()
            invariant
                i <= matches.len(),
                pieces@.len() == matches@.len() + 1,
                ps == strings_view(pieces@),
                reps == captures_view(matches@).map_values(
                    |c: Seq<Option<Seq<char>>>| replacement_of(self.rules_view(), c, 0),
                ),
                out@ == splice(ps.take(i + 1), reps.take(i as int)),
            decreases matches.len() - i,
        {
            let rep = self.replacement_for(&matches[i]);
            out.append(rep.as_str());
            out.append(pieces[i + 1].as_str());
            proof {
                assert(captures_view(matches@)[i as int] == groups_view(matches@[i as int]@));
                assert(ps.take(i + 2).drop_last() =~= ps.take(i + 1));
                assert(reps.take(i + 1).drop_last() =~= reps.take(i as int));
            }
            i += 1;
        }
        proof {
            assert(ps.take(matches@.len() + 1 as int) =~= ps);
            assert(reps.take(matches@.len() as int) =~= reps);
        }
        out
    }

    /// Rewrites every match in one left-to-right pass: each match becomes the placeholder
    /// of the rule whose own wrapping group it took, text outside matches is copied, and
    /// nothing written is scanned again. Text in which no rule matches comes back unchanged,
    /// and so does every text when there are no rules.
    pub fn replace(&self, content: &str) -> (r: String)
        ensures
            r@ == self.spec_replace(content@),
            self.no_rule_matches(content@) ==> r@ == content@,
            self.rules_view().len() == 0 ==> r@ == content@,
    {
        let pieces = split_pieces(&self.combined_regex, content);
        let matches = capture_groups(&self.combined_regex, content);
        let out = self.splice_matches(&pieces, &matches);
        proof {
            let reps = self.matches_in(content@).map_values(
                |c: Seq<Option<Seq<char>>>| replacement_of(self.rules_view(), c, 0),
            );
            let wholes = self.matches_in(content@).map_values(
                |c: Seq<Option<Seq<char>>>| whole_match(c),
            );
            if self.no_rule_matches(content@) {
                assert forall|k: int| 0 <= k < reps.len() implies reps[k] == wholes[k] by {
                    lemma_no_rule_keeps_match(self.rules_view(), self.matches_in(content@)[k], 0);
                }
                assert(reps =~= wholes);
            }
        }
        out
    }
}

proof fn lemma_no_rule_keeps_match(rules: Seq<SubstitutionRule>, caps: Seq<Option<Seq<char>>>, i: int)
    requires
        0 <= i,
        !rule_takes_part(rules, caps),
    ensures
        replacement_of(rules, caps, i) == whole_match(caps),
    decreases rules.len() - i,
{
    if i < rules.len() {
        assert(!rule_matched(rules, caps, i));
        lemma_no_rule_keeps_match(rules, caps, i + 1);
    }
}

} // verus!
