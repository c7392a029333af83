use crate::error::ErrorKind;
use crate::replacer::{each_pattern_compiles, group_numbers_fit, regex_accepts, RegexReplacer};
use crate::rules::{alternation, placeholder_of, sort_by_len, SubstitutionRule};
use vstd::prelude::*;

verus! {

/// What `serde_json::from_str` makes of `text`, seen flat: `None` when it is not JSON,
/// `Some(None)` when it is JSON but not an object, otherwise the object's members in the
/// map's order, each with its value's text when the value is a string.
pub uninterp spec fn json_flat_object(text: Seq<char>) -> Option<
    Option<Seq<(Seq<char>, Option<Seq<char>>)>>,
>;

pub open spec fn member_view(m: (String, Option<String>)) -> (Seq<char>, Option<Seq<char>>) {
    (
        m.0@,
        match m.1 {
            Some(v) => Some(v@),
            None => None,
        },
    )
}

pub open spec fn document_view(d: Option<Option<Vec<(String, Option<String>)>>>) -> Option<
    Option<Seq<(Seq<char>, Option<Seq<char>>)>>,
> {
    match d {
        None => None,
        Some(None) => Some(None),
        Some(Some(ms)) => Some(Some(ms@.map_values(|m: (String, Option<String>)| member_view(m)))),
    }
}

/// Relies on `serde_json::from_str` into a `serde_json::Value`, then on `Value::as_str` for
/// each member of an object.
#[verifier::external_body]
fn parse_json_object(text: &str) -> (r: Option<Option<Vec<(String, Option<String>)>>>)
    ensures
        document_view(r) == json_flat_object(text@),
{
    match serde_json::from_str::<serde_json::Value>(text) {
        Err(_) => None,
        Ok(serde_json::Value::Object(m)) => Some(Some(
            m.into_iter().map(|(k, v)| (k, v.as_str().map(|s| s.to_string()))).collect(),
        )),
        Ok(_) => Some(None),
    }
}

/// Whether every member's value is a string.
pub open spec fn all_strings(ms: Seq<(Seq<char>, Option<Seq<char>>)>) -> bool {
    forall|k: int| 0 <= k < ms.len() ==> (#[trigger] ms[k]).1 is Some
}

/// The rules a flat object stands for: one per member, in the object's order, its key the
/// pattern and its value wrapped as the placeholder.
pub open spec fn rules_match_members(
    rs: Seq<SubstitutionRule>,
    ms: Seq<(Seq<char>, Option<Seq<char>>)>,
) -> bool {
    &&& rs.len() == ms.len()
    &&& forall|k: int|
        0 <= k < rs.len() ==> (#[trigger] rs[k]).pattern@ == ms[k].0 && ms[k].1 is Some
            && rs[k].replacement@ == placeholder_of(ms[k].1->Some_0)
}

/// Builds the replacer from a flat JSON object of pattern to symbol. Fails with a
/// configuration error when the text is not JSON, not an object, when a value is not a
/// string, or when the patterns do not compile.
pub fn parse_json_pairs(json_str: &str) -> (r: Result<RegexReplacer, ErrorKind>)
    ensures
        r is Err ==> r->Err_0 == ErrorKind::Config,
        json_flat_object(json_str@) is None ==> r is Err,
        json_flat_object(json_str@) == Some(
            None::<Seq<(Seq<char>, Option<Seq<char>>)>>,
        ) ==> r is Err,
        forall|ms: Seq<(Seq<char>, Option<Seq<char>>)>|
            json_flat_object(json_str@) == Some(Some(ms)) ==> {
                ||| !all_strings(ms) && r is Err
                ||| all_strings(ms) && exists|rs: Seq<SubstitutionRule>|
                    rules_match_members(rs, ms) && (r is Ok <==> regex_accepts_sorted(rs)) && (
                    r is Ok ==> r->Ok_0.rules_view() == sort_by_len(rs))
            },
        r is Ok ==> r->Ok_0.source() == alternation(r->Ok_0.rules_view()),
{
    match parse_json_object(json_str) {
        None => Err(ErrorKind::Config),
        Some(None) => Err(ErrorKind::Config),
        Some(Some(members)) => {
            let ghost ms = members@.map_values(|m: (String, Option<String>)| member_view(m));
            assert(json_flat_object(json_str@) == Some(Some(ms)));
            let mut rules: Vec<SubstitutionRule> = Vec::new();
            let mut i: usize = 0;
            while i < members.len()
                invariant
                    i <= members.len(),
                    json_flat_object(json_str@) == Some(Some(ms)),
                    ms == members@.map_values(|m: (String, Option<String>)| member_view(m)),
                    rules_match_members(rules@, ms.take(i as int)),
                decreases members.len() - i,
            {
                assert(ms[i as int] == member_view(members@[i as int]));
                match &members[i].1 {
                    Some(v) => {
                        let rule = SubstitutionRule::new(members[i].0.clone(), v.clone());
                        assert(rule.pattern@ == ms[i as int].0);
                        assert(rule.replacement@ == placeholder_of(ms[i as int].1->Some_0));
                        rules.push(rule);
                    },
                    None => {
                        proof {
                            assert(ms[i as int].1 is None);
                        }
                        return Err(ErrorKind::Config);
                    },
                }
                i += 1;
                proof {
                    assert forall|k: int| 0 <= k < rules@.len() implies (#[trigger] rules@[k]).pattern@
                        == ms.take(i as int)[k].0 && ms.take(i as int)[k].1 is Some
                        && rules@[k].replacement@ == placeholder_of(
                        ms.take(i as int)[k].1->Some_0,
                    ) by {
                        if k < i - 1 {
                            assert(ms.take(i - 1)[k] == ms.take(i as int)[k]);
                            assert(rules_match_members(rules@.drop_last(), ms.take(i - 1)));
                            assert(rules@.drop_last()[k] == rules@[k]);
                        }
                    }
                }
            }
            proof {
                assert(ms.take(members.len() as int) =~= ms);
                assert(rules_match_members(rules@, ms));
                assert forall|k: int| 0 <= k < ms.len() implies (#[trigger] ms[k]).1 is Some by {
                    assert(rules@[k].pattern@ == ms[k].0);
                }
            }
            RegexReplacer::new(rules)
        },
    }
}

/// Whether the rules, longest pattern first, make a matcher: each pattern compiles alone,
/// the group numbers fit, and the alternation compiles.
pub open spec fn regex_accepts_sorted(rs: Seq<SubstitutionRule>) -> bool {
    &&& each_pattern_compiles(sort_by_len(rs))
    &&& group_numbers_fit(sort_by_len(rs))
    &&& regex_accepts(alternation(sort_by_len(rs)))
}

} // verus!
