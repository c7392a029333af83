use crate::error::ErrorKind;
use crate::materialize::{
    has_excluded_component, plan_entry, relative_path, rewrite_content, starts_with, EntryPlan,
};
use crate::replacer::RegexReplacer;
use crate::rules::strings_view;
use vstd::prelude::*;
use vstd::utf8::{decode_utf8, valid_utf8};

verus! {

/// One entry as the walk yields it: the components of its path, whether its path is valid
/// UTF-8, whether it is a directory, and the bytes of a file's content.
pub struct WalkedEntry {
    pub components: Vec<String>,
    pub name_is_utf8: bool,
    pub is_dir: bool,
    pub content: Vec<u8>,
}

/// One thing to materialize, at a path relative to the destination root.
pub enum Output {
    Dir(String),
    File(String, String),
}

/// The outputs of a run in walk order, and the failure that ended it, if any: the position
/// of the failing entry and its kind.
pub struct RunPlan {
    pub outputs: Vec<Output>,
    pub failed: Option<(usize, ErrorKind)>,
}

/// An output as whether it is a directory, its path and its content.
pub open spec fn output_view(o: Output) -> (bool, Seq<char>, Seq<char>) {
    match o {
        Output::Dir(p) => (true, p@, Seq::empty()),
        Output::File(p, c) => (false, p@, c@),
    }
}

pub open spec fn outputs_view(os: Seq<Output>) -> Seq<(bool, Seq<char>, Seq<char>)> {
    os.map_values(|o: Output| output_view(o))
}

/// What one entry becomes: nothing, one output, or the failure it ends the run with.
pub open spec fn entry_outcome(
    e: WalkedEntry,
    rt: Seq<Seq<char>>,
    ex: Seq<Seq<char>>,
    skip: Seq<Seq<char>>,
    rep: RegexReplacer,
) -> Result<Option<(bool, Seq<char>, Seq<char>)>, ErrorKind> {
    let cs = strings_view(e.components@);
    if has_excluded_component(cs, ex) {
        Ok(None)
    } else if !starts_with(cs, rt) {
        Err(ErrorKind::Path)
    } else if !e.name_is_utf8 {
        Err(ErrorKind::Encoding)
    } else {
        let mapped = rep.spec_replace(relative_path(cs, rt));
        if skip.contains(mapped) {
            Ok(None)
        } else if e.is_dir {
            Ok(Some((true, mapped, Seq::empty())))
        } else if !valid_utf8(e.content@) {
            Err(ErrorKind::Encoding)
        } else {
            Ok(Some((false, mapped, rep.spec_replace(decode_utf8(e.content@)))))
        }
    }
}

/// The outputs of the entries, in order, leaving out those that become nothing.
pub open spec fn run_outputs(
    es: Seq<WalkedEntry>,
    rt: Seq<Seq<char>>,
    ex: Seq<Seq<char>>,
    skip: Seq<Seq<char>>,
    rep: RegexReplacer,
) -> Seq<(bool, Seq<char>, Seq<char>)>
    decreases es.len(),
{
    if es.len() == 0 {
        Seq::empty()
    } else {
        let prev = run_outputs(es.drop_last(), rt, ex, skip, rep);
        match entry_outcome(es.last(), rt, ex, skip, rep) {
            Ok(Some(o)) => prev.push(o),
            _ => prev,
        }
    }
}

/// Whether an entry is copied as it stands: under the root, not excluded, its name UTF-8 and
/// not skipped, a file's content UTF-8, and no rule matching its relative path or its text.
pub open spec fn kept_as_is(
    e: WalkedEntry,
    rt: Seq<Seq<char>>,
    ex: Seq<Seq<char>>,
    skip: Seq<Seq<char>>,
    rep: RegexReplacer,
) -> bool {
    let cs = strings_view(e.components@);
    &&& !has_excluded_component(cs, ex)
    &&& starts_with(cs, rt)
    &&& e.name_is_utf8
    &&& !skip.contains(relative_path(cs, rt))
    &&& rep.no_rule_matches(relative_path(cs, rt))
    &&& !e.is_dir ==> valid_utf8(e.content@) && rep.no_rule_matches(decode_utf8(e.content@))
}

/// The entry reproduced: its kind, its relative path, and a file's text.
pub open spec fn copy_of(e: WalkedEntry, rt: Seq<Seq<char>>) -> (bool, Seq<char>, Seq<char>) {
    let rel = relative_path(strings_view(e.components@), rt);
    if e.is_dir {
        (true, rel, Seq::empty())
    } else {
        (false, rel, decode_utf8(e.content@))
    }
}

/// Plans a whole run over the walked entries, in walk order. It stops at the first entry
/// that fails, and the outputs are then exactly those of the entries before it. Where every
/// entry is kept as it stands, the run reproduces the tree: each entry at its own relative
/// path, each file with its own text.
pub fn plan_run(
    entries: Vec<WalkedEntry>,
    root: &Vec<String>,
    excluded: &Vec<String>,
    skip: &Vec<String>,
    replacer: &RegexReplacer,
) -> (r: RunPlan)
    ensures
        ({
            let rt = strings_view(root@);
            let ex = strings_view(excluded@);
            let sk = strings_view(skip@);
            &&& r.failed is None ==> (forall|k: int|
                0 <= k < entries@.len() ==> (#[trigger] entry_outcome(
                    entries@[k],
                    rt,
                    ex,
                    sk,
                    *replacer,
                )) is Ok) && outputs_view(r.outputs@) == run_outputs(
                entries@,
                rt,
                ex,
                sk,
                *replacer,
            )
            &&& r.failed is Some ==> {
                let k = r.failed->Some_0.0 as int;
                &&& k < entries@.len()
                &&& forall|j: int|
                    0 <= j < k ==> (#[trigger] entry_outcome(
                        entries@[j],
                        rt,
                        ex,
                        sk,
                        *replacer,
                    )) is Ok
                &&& entry_outcome(entries@[k], rt, ex, sk, *replacer) == Err::<
                    Option<(bool, Seq<char>, Seq<char>)>,
                    ErrorKind,
                >(r.failed->Some_0.1)
                &&& outputs_view(r.outputs@) == run_outputs(
                    entries@.take(k),
                    rt,
                    ex,
                    sk,
                    *replacer,
                )
            }
            &&& (forall|k: int|
                0 <= k < entries@.len() ==> #[trigger] kept_as_is(
                    entries@[k],
                    rt,
                    ex,
                    sk,
                    *replacer,
                )) ==> r.failed is None && outputs_view(r.outputs@) == entries@.map_values(
                |e: WalkedEntry| copy_of(e, rt),
            )
        }),
{
    let ghost rt = strings_view(root@);
    let ghost ex = strings_view(excluded@);
    let ghost sk = strings_view(skip@);
    let ghost orig = entries@;
    let ghost all_kept = forall|k: int|
        0 <= k < orig.len() ==> #[trigger] kept_as_is(orig[k], rt, ex, sk, *replacer);
    let mut rest = entries;
    let mut outputs: Vec<Output> = Vec::new();
    let n = rest.len();
    let mut i: usize = 0;
    while i < n
        invariant
            orig == entries@,
            n == orig.len(),
            rt == strings_view(root@),
            ex == strings_view(excluded@),
            sk == strings_view(skip@),
            i <= n,
            rest@ == orig.skip(i as int),
            all_kept == forall|k: int|
                0 <= k < orig.len() ==> #[trigger] kept_as_is(orig[k], rt, ex, sk, *replacer),
            forall|j: int|
                0 <= j < i ==> (#[trigger] entry_outcome(orig[j], rt, ex, sk, *replacer)) is Ok,
            outputs_view(outputs@) == run_outputs(orig.take(i as int), rt, ex, sk, *replacer),
            all_kept ==> outputs_view(outputs@) == orig.take(i as int).map_values(
                |e: WalkedEntry| copy_of(e, rt),
            ),
        decreases n - i,
    {
        let e = rest.remove(0);
        let ghost ge = e;
        assert(ge == orig[i as int]);
        assert(orig.take(i + 1).drop_last() =~= orig.take(i as int));
        assert(orig.take(i + 1).last() == ge);
        assert(orig.take(i + 1).map_values(|e: WalkedEntry| copy_of(e, rt)) =~= orig.take(
            i as int,
        ).map_values(|e: WalkedEntry| copy_of(e, rt)).push(copy_of(ge, rt)));
        let ghost before = outputs@;
        let WalkedEntry { components, name_is_utf8, is_dir, content } = e;
        assert(components@ == ge.components@ && content@ == ge.content@);
        assert(name_is_utf8 == ge.name_is_utf8 && is_dir == ge.is_dir);
        let ghost outcome = entry_outcome(ge, rt, ex, sk, *replacer);
        let planned = plan_entry(&components, name_is_utf8, is_dir, root, excluded, skip, replacer);
        match planned {
            Err(kind) => {
                assert(outcome == Err::<Option<(bool, Seq<char>, Seq<char>)>, ErrorKind>(kind));
                assert(all_kept ==> kept_as_is(orig[i as int], rt, ex, sk, *replacer));
                assert(!all_kept);
                return RunPlan { outputs, failed: Some((i, kind)) };
            },
            Ok(EntryPlan::Skip) => {
                assert(outcome == Ok::<Option<(bool, Seq<char>, Seq<char>)>, ErrorKind>(None));
                assert(all_kept ==> kept_as_is(orig[i as int], rt, ex, sk, *replacer));
                assert(!all_kept);
            },
            Ok(EntryPlan::CreateDir(p)) => {
                assert(outcome == Ok::<Option<(bool, Seq<char>, Seq<char>)>, ErrorKind>(
                    Some((true, p@, Seq::empty())),
                ));
                assert(all_kept ==> kept_as_is(ge, rt, ex, sk, *replacer));
                assert(all_kept ==> output_view(Output::Dir(p)) == copy_of(ge, rt));
                outputs.push(Output::Dir(p));
                assert(outputs_view(outputs@) =~= outputs_view(before).push(
                    output_view(outputs@.last()),
                ));
            },
            Ok(EntryPlan::WriteFile(p)) => {
                match rewrite_content(content, replacer) {
                    Err(kind) => {
                        assert(outcome == Err::<Option<(bool, Seq<char>, Seq<char>)>, ErrorKind>(
                            kind,
                        ));
                        assert(all_kept ==> kept_as_is(orig[i as int], rt, ex, sk, *replacer));
                        assert(!all_kept);
                        return RunPlan { outputs, failed: Some((i, kind)) };
                    },
                    Ok(text) => {
                        assert(outcome == Ok::<Option<(bool, Seq<char>, Seq<char>)>, ErrorKind>(
                            Some((false, p@, text@)),
                        ));
                        assert(all_kept ==> kept_as_is(ge, rt, ex, sk, *replacer));
                        assert(all_kept ==> output_view(Output::File(p, text)) == copy_of(ge, rt));
                        outputs.push(Output::File(p, text));
                        assert(outputs_view(outputs@) =~= outputs_view(before).push(
                            output_view(outputs@.last()),
                        ));
                    },
                }
            },
        }
        i += 1;
        proof {
            assert(rest@ =~= orig.skip(i as int));
        }
    }
    proof {
        assert(orig.take(n as int) =~= orig);
    }
    RunPlan { outputs, failed: None }
}

} // verus!
