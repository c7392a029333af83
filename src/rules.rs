use vstd::prelude::*;
use vstd::utf8::encode_utf8;

verus! {

/// The text of each string.
pub open spec fn strings_view(v: Seq<String>) -> Seq<Seq<char>> {
    v.map_values(|s: String| s@)
}

/// The placeholder that a symbol is written as in the output: `{{cookiecutter.<symbol>}}`.
pub open spec fn placeholder_of(symbol: Seq<char>) -> Seq<char> {
    "{{cookiecutter."@ + symbol + "}}"@
}

/// One pattern paired with the placeholder its matches are rewritten into.
pub struct SubstitutionRule {
    pub pattern: String,
    pub replacement: String,
}

impl SubstitutionRule {
    /// A rule that rewrites matches of `pattern` into the placeholder of `replacement`.
    pub fn new(pattern: String, replacement: String) -> (r: Self)
        ensures
            r.pattern@ == pattern@,
            r.replacement@ == placeholder_of(replacement@),
    {
        let mut wrapped = String::from_str("{{cookiecutter.");
        wrapped.append(replacement.as_str());
        wrapped.append("}}");
        proof {
            reveal_strlit("{{cookiecutter.");
            reveal_strlit("}}");
        }
        SubstitutionRule { pattern, replacement: wrapped }
    }
}

/// The length in bytes of a pattern's UTF-8 encoding, as `str::len` gives it.
pub open spec fn byte_len(s: Seq<char>) -> usize {
    encode_utf8(s).len() as usize
}

/// The first position of `sorted` whose pattern is strictly shorter than `len` bytes,
/// or the length of `sorted` if there is none.
pub open spec fn first_shorter(sorted: Seq<SubstitutionRule>, len: usize) -> int
    decreases sorted.len(),
{
    if sorted.len() == 0 {
        0
    } else if byte_len(sorted[0].pattern@) < len {
        0
    } else {
        1 + first_shorter(sorted.drop_first(), len)
    }
}

/// `r` placed after every rule whose pattern is at least as long as its own.
pub open spec fn insert_by_len(sorted: Seq<SubstitutionRule>, r: SubstitutionRule) -> Seq<SubstitutionRule> {
    sorted.insert(first_shorter(sorted, byte_len(r.pattern@)), r)
}

/// The stable sort of `rs` by descending pattern length: among patterns of equal length
/// the earlier rule stays first.
pub open spec fn sort_by_len(rs: Seq<SubstitutionRule>) -> Seq<SubstitutionRule>
    decreases rs.len(),
{
    if rs.len() == 0 {
        rs
    } else {
        insert_by_len(sort_by_len(rs.drop_last()), rs.last())
    }
}

/// No pattern is longer than one placed before it.
pub open spec fn longest_first(rs: Seq<SubstitutionRule>) -> bool {
    forall|i: int, j: int|
        0 <= i < j < rs.len() ==> byte_len(#[trigger] rs[j].pattern@) <= byte_len(
            #[trigger] rs[i].pattern@,
        )
}

/// A pattern wrapped in one capture group.
pub open spec fn group_of(p: Seq<char>) -> Seq<char> {
    "("@ + p + ")"@
}

/// The alternation of the rules' patterns, one capture group each, in the given order.
pub open spec fn alternation(rs: Seq<SubstitutionRule>) -> Seq<char>
    decreases rs.len(),
{
    if rs.len() == 0 {
        Seq::empty()
    } else if rs.len() == 1 {
        group_of(rs[0].pattern@)
    } else {
        alternation(rs.drop_last()) + "|"@ + group_of(rs.last().pattern@)
    }
}

proof fn lemma_first_shorter_bounds(sorted: Seq<SubstitutionRule>, len: usize)
    ensures
        0 <= first_shorter(sorted, len) <= sorted.len(),
        forall|k: int|
            0 <= k < first_shorter(sorted, len) ==> len <= byte_len(#[trigger] sorted[k].pattern@),
        first_shorter(sorted, len) < sorted.len() ==> byte_len(
            sorted[first_shorter(sorted, len)].pattern@,
        ) < len,
    decreases sorted.len(),
{
    if sorted.len() > 0 && byte_len(sorted[0].pattern@) >= len {
        lemma_first_shorter_bounds(sorted.drop_first(), len);
        assert forall|k: int| 0 <= k < first_shorter(sorted, len) implies len <= byte_len(
            #[trigger] sorted[k].pattern@,
        ) by {
            if k > 0 {
                assert(sorted[k] == sorted.drop_first()[k - 1]);
            }
        }
    }
}

proof fn lemma_insert_keeps_order(sorted: Seq<SubstitutionRule>, r: SubstitutionRule)
    requires
        longest_first(sorted),
    ensures
        longest_first(insert_by_len(sorted, r)),
{
    let len = byte_len(r.pattern@);
    let j = first_shorter(sorted, len);
    lemma_first_shorter_bounds(sorted, len);
    let t = insert_by_len(sorted, r);
    assert forall|a: int, b: int| 0 <= a < b < t.len() implies byte_len(
        #[trigger] t[b].pattern@,
    ) <= byte_len(#[trigger] t[a].pattern@) by {
        if b < j {
        } else if b == j {
        } else if a < j {
            assert(byte_len(sorted[j].pattern@) <= byte_len(sorted[a].pattern@));
            assert(byte_len(sorted[b - 1].pattern@) <= byte_len(sorted[j].pattern@)
                || b - 1 == j);
        } else if a == j {
            assert(byte_len(sorted[b - 1].pattern@) <= byte_len(sorted[j].pattern@)
                || b - 1 == j);
        } else {
        }
    }
}

/// The rule order that matching goes by puts no pattern after a shorter one, so a longer
/// pattern is tried before a shorter one at the same position.
pub proof fn lemma_sort_by_len_longest_first(rs: Seq<SubstitutionRule>)
    ensures
        longest_first(sort_by_len(rs)),
        sort_by_len(rs).len() == rs.len(),
    decreases rs.len(),
{
    if rs.len() > 0 {
        lemma_sort_by_len_longest_first(rs.drop_last());
        lemma_insert_keeps_order(sort_by_len(rs.drop_last()), rs.last());
        lemma_first_shorter_bounds(sort_by_len(rs.drop_last()), byte_len(rs.last().pattern@));
    }
}

proof fn lemma_insert_by_len_multiset(sorted: Seq<SubstitutionRule>, r: SubstitutionRule)
    ensures
        insert_by_len(sorted, r).to_multiset() =~= sorted.to_multiset().insert(r),
{
    broadcast use vstd::seq_lib::group_to_multiset_ensures;

    let j = first_shorter(sorted, byte_len(r.pattern@));
    lemma_first_shorter_bounds(sorted, byte_len(r.pattern@));
    let t = sorted.insert(j, r);
    assert(t.remove(j) =~= sorted);
    assert(t[j] == r);
    assert(t.to_multiset().remove(r) =~= sorted.to_multiset());
    assert(t.contains(r));
    assert(t.to_multiset().count(r) > 0);
}

/// Ordering the rules keeps every one of them, as many times as it was given.
pub proof fn lemma_sort_by_len_keeps_rules(rs: Seq<SubstitutionRule>)
    ensures
        sort_by_len(rs).to_multiset() =~= rs.to_multiset(),
    decreases rs.len(),
{
    broadcast use vstd::seq_lib::group_to_multiset_ensures;

    if rs.len() > 0 {
        lemma_sort_by_len_keeps_rules(rs.drop_last());
        lemma_insert_by_len_multiset(sort_by_len(rs.drop_last()), rs.last());
        assert(rs.drop_last().push(rs.last()) =~= rs);
    }
}

/// Orders the rules by descending pattern length, keeping the given order among patterns
/// of equal length.
pub fn sort_rules(rules: Vec<SubstitutionRule>) -> (r: Vec<SubstitutionRule>)
    ensures
        r@ == sort_by_len(rules@),
        longest_first(r@),
        r@.to_multiset() =~= rules@.to_multiset(),
{
    let ghost orig = rules@;
    let mut rest = rules;
    let mut sorted: Vec<SubstitutionRule> = Vec::new();
    let mut i: usize = 0;
    let n = rest.len();
    while i < n
        invariant
            n == orig.len(),
            i <= n,
            rest@ == orig.skip(i as int),
            sorted@ == sort_by_len(orig.take(i as int)),
        decreases n - i,
    {
        let r = rest.remove(0);
        let len = r.pattern.as_str().len();
        let mut j: usize = 0;
        assert(sorted@.skip(0) =~= sorted@);
        while j < sorted.len() && sorted[j].pattern.as_str().len() >= len
            invariant
                j <= sorted.len(),
                first_shorter(sorted@, len) == j + first_shorter(sorted@.skip(j as int), len),
            decreases sorted.len() - j,
        {
            assert(sorted@.skip(j as int).drop_first() =~= sorted@.skip(j + 1));
            j += 1;
        }
        assert(first_shorter(sorted@.skip(j as int), len) == 0);
        proof {
            assert(orig.take(i + 1).drop_last() =~= orig.take(i as int));
            assert(orig.take(i + 1).last() == r);
        }
        sorted.insert(j, r);
        i += 1;
        proof {
            assert(rest@ =~= orig.skip(i as int));
        }
    }
    proof {
        assert(orig.take(n as int) =~= orig);
        lemma_sort_by_len_longest_first(orig);
        lemma_sort_by_len_keeps_rules(orig);
    }
    sorted
}

/// Writes the rules' patterns as one alternation, a capture group per rule, in rule order.
pub fn combined_pattern(rules: &Vec<SubstitutionRule>) -> (r: String)
    ensures
        r@ == alternation(rules@),
{
    let mut out = String::new();
    let mut i: usize = 0;
    proof {
        reveal_strlit("(");
        reveal_strlit(")");
        reveal_strlit("|");
        assert(rules@.take(0) =~= Seq::<SubstitutionRule>::empty());
    }
    while i < rules.len()
        invariant
            i <= rules.len(),
            out@ == alternation(rules@.take(i as int)),
        decreases rules.len() - i,
    {
        let ghost before = out@;
        if i > 0 {
            out.append("|");
        }
        out.append("(");
        out.append(rules[i].pattern.as_str());
        out.append(")");
        proof {
            let t = rules@.take(i + 1);
            assert(t.drop_last() =~= rules@.take(i as int));
            assert(t.last() == rules@[i as int]);
            if i == 0 {
                assert(out@ =~= group_of(rules@[0].pattern@));
            } else {
                assert(out@ =~= before + "|"@ + group_of(rules@[i as int].pattern@));
            }
        }
        i += 1;
    }
    proof {
        assert(rules@.take(rules.len() as int) =~= rules@);
    }
    out
}

} // verus!
