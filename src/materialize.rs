use crate::error::ErrorKind;
use crate::replacer::RegexReplacer;
use crate::rules::strings_view;
use vstd::prelude::*;
use vstd::utf8::{decode_utf8, valid_utf8};

verus! {

/// The name of the configuration file, which is never written to the output.
pub const CONFIG_FILE_NAME: &'static str = "cuttercookie.json";

/// What to do with one walked entry.
pub enum EntryPlan {
    /// Nothing is written for it.
    Skip,
    /// Create the directory at this path, relative to the destination root.
    CreateDir(String),
    /// Write the rewritten content of the file at this path, relative to the destination root.
    WriteFile(String),
}

/// Whether some component of a path is one of the excluded names.
pub open spec fn has_excluded_component(cs: Seq<Seq<char>>, excluded: Seq<Seq<char>>) -> bool {
    exists|i: int, j: int|
        0 <= i < cs.len() && 0 <= j < excluded.len() && #[trigger] cs[i] == #[trigger] excluded[j]
}

/// Whether `root` is a leading part of `path`, component by component.
pub open spec fn starts_with(path: Seq<Seq<char>>, root: Seq<Seq<char>>) -> bool {
    root.len() <= path.len() && path.take(root.len() as int) == root
}

/// The components joined by `/`; no components give the empty path.
pub open spec fn join_path(cs: Seq<Seq<char>>) -> Seq<char>
    decreases cs.len(),
{
    if cs.len() == 0 {
        Seq::empty()
    } else if cs.len() == 1 {
        cs[0]
    } else {
        join_path(cs.drop_last()) + "/"@ + cs.last()
    }
}

/// The path of an entry relative to the root, written with `/`.
pub open spec fn relative_path(path: Seq<Seq<char>>, root: Seq<Seq<char>>) -> Seq<char> {
    join_path(path.skip(root.len() as int))
}

/// The names that are never materialized: the root itself and the configuration file.
pub open spec fn default_skip_view() -> Seq<Seq<char>> {
    seq![Seq::empty(), "cuttercookie.json"@]
}

/// The skip set of a run: the empty relative path, which stands for the root, and the
/// configuration file's name.
pub fn default_skip_set() -> (r: Vec<String>)
    ensures
        strings_view(r@) == default_skip_view(),
{
    let mut r: Vec<String> = Vec::new();
    r.push(String::new());
    r.push(String::from_str(CONFIG_FILE_NAME));
    proof {
        reveal_strlit("cuttercookie.json");
        assert(strings_view(r@) =~= default_skip_view());
    }
    r
}

/// Whether some component of the path is one of the excluded names.
pub fn is_excluded(components: &Vec<String>, excluded: &Vec<String>) -> (r: bool)
    ensures
        r == has_excluded_component(strings_view(components@), strings_view(excluded@)),
{
    let ghost cs = strings_view(components@);
    let ghost ex = strings_view(excluded@);
    let mut i: usize = 0;
    while i < components.len()
        invariant
            i <= components.len(),
            cs == strings_view(components@),
            ex == strings_view(excluded@),
            forall|a: int, b: int|
                0 <= a < i && 0 <= b < ex.len() ==> #[trigger] cs[a] != #[trigger] ex[b],
        decreases components.len() - i,
    {
        let mut j: usize = 0;
        while j < excluded.len()
            invariant
                i < components.len(),
                j <= excluded.len(),
                cs == strings_view(components@),
                ex == strings_view(excluded@),
                forall|a: int, b: int|
                    0 <= a < i && 0 <= b < ex.len() ==> #[trigger] cs[a] != #[trigger] ex[b],
                forall|b: int| 0 <= b < j ==> cs[i as int] != #[trigger] ex[b],
            decreases excluded.len() - j,
        {
            if components[i] == excluded[j] {
                assert(cs[i as int] == ex[j as int]);
                return true;
            }
            j += 1;
        }
        i += 1;
    }
    false
}

/// Whether `name` is one of `set`.
fn contains_name(set: &Vec<String>, name: &String) -> (r: bool)
    ensures
        r == strings_view(set@).contains(name@),
{
    let mut i: usize = 0;
    while i < set.len()
        invariant
            i <= set.len(),
            forall|k: int| 0 <= k < i ==> set@[k]@ != name@,
        decreases set.len() - i,
    {
        if set[i] == *name {
            assert(strings_view(set@)[i as int] == name@);
            return true;
        }
        i += 1;
    }
    proof {
        if strings_view(set@).contains(name@) {
            let k = choose|k: int| 0 <= k < set@.len() && strings_view(set@)[k] == name@;
            assert(set@[k]@ == name@);
        }
    }
    false
}

/// The components of `path` after those of `root`, when `root` leads `path`.
fn strip_root(path: &Vec<String>, root: &Vec<String>) -> (r: Option<Vec<String>>)
    ensures
        r is Some <==> starts_with(strings_view(path@), strings_view(root@)),
        r is Some ==> strings_view(r->Some_0@) == strings_view(path@).skip(root@.len() as int),
{
    if root.len() > path.len() {
        return None;
    }
    let mut i: usize = 0;
    while i < root.len()
        invariant
            root.len() <= path.len(),
            i <= root.len(),
            forall|k: int| 0 <= k < i ==> path@[k]@ == root@[k]@,
        decreases root.len() - i,
    {
        if path[i] != root[i] {
            assert(strings_view(path@).take(root@.len() as int)[i as int] != strings_view(
                root@,
            )[i as int]);
            return None;
        }
        i += 1;
    }
    assert(strings_view(path@).take(root@.len() as int) =~= strings_view(root@));
    let mut rest: Vec<String> = Vec::new();
    let mut k: usize = root.len();
    while k < path.len()
        invariant
            root.len() <= k <= path.len(),
            strings_view(rest@) == strings_view(path@).subrange(root@.len() as int, k as int),
        decreases path.len() - k,
    {
        let ghost before = rest@;
        rest.push(path[k].clone());
        proof {
            assert(rest@ == before.push(path@[k as int]));
            assert(strings_view(rest@) =~= strings_view(before).push(path@[k as int]@));
            assert(strings_view(path@).subrange(root@.len() as int, k + 1) =~= strings_view(
                path@,
            ).subrange(root@.len() as int, k as int).push(path@[k as int]@));
            assert(strings_view(rest@) =~= strings_view(path@).subrange(
                root@.len() as int,
                k + 1,
            ));
        }
        k += 1;
    }
    assert(strings_view(path@).subrange(root@.len() as int, path@.len() as int) =~= strings_view(
        path@,
    ).skip(root@.len() as int));
    Some(rest)
}

/// The components joined by `/`.
pub fn join_components(cs: &Vec<String>) -> (r: String)
    ensures
        r@ == join_path(strings_view(cs@)),
{
    let ghost v = strings_view(cs@);
    let mut out = String::new();
    let mut i: usize = 0;
    proof {
        reveal_strlit("/");
        assert(v.take(0) =~= Seq::<Seq<char>>::empty());
    }
    while i < cs.len()
        invariant
            i <= cs.len(),
            v == strings_view(cs@),
            out@ == join_path(v.take(i as int)),
        decreases cs.len() - i,
    {
        let ghost before = out@;
        if i > 0 {
            out.append("/");
        }
        out.append(cs[i].as_str());
        proof {
            let t = v.take(i + 1);
            assert(t.drop_last() =~= v.take(i as int));
            if i == 0 {
                assert(out@ =~= v[0]);
            } else {
                assert(out@ =~= before + "/"@ + v[i as int]);
            }
        }
        i += 1;
    }
    proof {
        assert(v.take(cs@.len() as int) =~= v);
    }
    out
}

pub open spec fn is_skip(r: Result<EntryPlan, ErrorKind>) -> bool {
    r matches Ok(EntryPlan::Skip)
}

pub open spec fn is_create_dir(r: Result<EntryPlan, ErrorKind>) -> bool {
    r matches Ok(EntryPlan::CreateDir(_))
}

pub open spec fn is_write_file(r: Result<EntryPlan, ErrorKind>) -> bool {
    r matches Ok(EntryPlan::WriteFile(_))
}

/// The path an entry is given in the output, if the plan writes one.
pub open spec fn planned_path(r: Result<EntryPlan, ErrorKind>) -> Option<Seq<char>> {
    match r {
        Ok(EntryPlan::CreateDir(p)) => Some(p@),
        Ok(EntryPlan::WriteFile(p)) => Some(p@),
        _ => None,
    }
}

/// Decides what one walked entry becomes. `components` are those of the entry's path,
/// `root` those of the source root; `name_is_utf8` says whether the entry's path is
/// valid UTF-8. An entry with an excluded component is skipped; one outside the root is a
/// path error; one whose name is not UTF-8 an encoding error. Otherwise its path relative
/// to the root is rewritten, and the entry is skipped when that lands in `skip`, else it
/// becomes a directory or a file at the rewritten path. Where no rule matches the relative
/// path, the entry keeps it. Nothing is ever planned at a path of `skip`, nor for an entry
/// with an excluded component.
pub fn plan_entry(
    components: &Vec<String>,
    name_is_utf8: bool,
    is_dir: bool,
    root: &Vec<String>,
    excluded: &Vec<String>,
    skip: &Vec<String>,
    replacer: &RegexReplacer,
) -> (r: Result<EntryPlan, ErrorKind>)
    ensures
        ({
            let cs = strings_view(components@);
            let rt = strings_view(root@);
            let mapped = replacer.spec_replace(relative_path(cs, rt));
            &&& has_excluded_component(cs, strings_view(excluded@)) ==> is_skip(r)
            &&& !has_excluded_component(cs, strings_view(excluded@)) ==> {
                &&& !starts_with(cs, rt) ==> r == Err::<EntryPlan, ErrorKind>(ErrorKind::Path)
                &&& starts_with(cs, rt) && !name_is_utf8 ==> r == Err::<EntryPlan, ErrorKind>(
                    ErrorKind::Encoding,
                )
                &&& starts_with(cs, rt) && name_is_utf8 ==> {
                    &&& strings_view(skip@).contains(mapped) ==> is_skip(r)
                    &&& !strings_view(skip@).contains(mapped) && is_dir ==> is_create_dir(r) && planned_path(r) == Some(mapped)
                    &&& !strings_view(skip@).contains(mapped) && !is_dir ==> is_write_file(r) && planned_path(r) == Some(mapped)
                    &&& (replacer.rules_view().len() == 0 || replacer.no_rule_matches(
                        relative_path(cs, rt),
                    )) && !strings_view(skip@).contains(relative_path(cs, rt))
                        ==> planned_path(r) == Some(relative_path(cs, rt))
                }
            }
            &&& planned_path(r) is Some ==> !strings_view(skip@).contains(planned_path(r)->Some_0)
            &&& planned_path(r) is Some ==> !has_excluded_component(cs, strings_view(excluded@))
        }),
{
    if is_excluded(components, excluded) {
        return Ok(EntryPlan::Skip);
    }
    let rest = match strip_root(components, root) {
        Some(rest) => rest,
        None => return Err(ErrorKind::Path),
    };
    if !name_is_utf8 {
        return Err(ErrorKind::Encoding);
    }
    let relative = join_components(&rest);
    let mapped = replacer.replace(relative.as_str());
    if contains_name(skip, &mapped) {
        Ok(EntryPlan::Skip)
    } else if is_dir {
        Ok(EntryPlan::CreateDir(mapped))
    } else {
        Ok(EntryPlan::WriteFile(mapped))
    }
}

/// Relies on `String::from_utf8`: it succeeds exactly on valid UTF-8, which it decodes.
#[verifier::external_body]
fn decode_utf8_bytes(bytes: Vec<u8>) -> (r: Option<String>)
    ensures
        r is Some <==> valid_utf8(bytes@),
        r is Some ==> r->Some_0@ == decode_utf8(bytes@),
{
    String::from_utf8(bytes).ok()
}

/// The content to write for a file read as `bytes`: its text rewritten by the replacer, or
/// an encoding error when it is not valid UTF-8. Where no rule matches, or there are no
/// rules, the text is kept as it is.
pub fn rewrite_content(bytes: Vec<u8>, replacer: &RegexReplacer) -> (r: Result<String, ErrorKind>)
    ensures
        r is Err <==> !valid_utf8(bytes@),
        r is Err ==> r->Err_0 == ErrorKind::Encoding,
        r is Ok ==> r->Ok_0@ == replacer.spec_replace(decode_utf8(bytes@)),
        r is Ok && (replacer.rules_view().len() == 0 || replacer.no_rule_matches(
            decode_utf8(bytes@),
        )) ==> r->Ok_0@ == decode_utf8(bytes@),
{
    match decode_utf8_bytes(bytes) {
        Some(text) => Ok(replacer.replace(text.as_str())),
        None => Err(ErrorKind::Encoding),
    }
}

/// Nothing is ever written under the root's own empty path or under the configuration
/// file's name, whatever the rules map an entry to.
pub proof fn lemma_default_skip_never_written(r: Result<EntryPlan, ErrorKind>, skip: Seq<Seq<char>>)
    requires
        skip == default_skip_view(),
        planned_path(r) is Some ==> !skip.contains(planned_path(r)->Some_0),
    ensures
        planned_path(r) is Some ==> planned_path(r)->Some_0 != Seq::<char>::empty()
            && planned_path(r)->Some_0 != "cuttercookie.json"@,
{
    if planned_path(r) is Some {
        assert(skip[0] == Seq::<char>::empty());
        assert(skip[1] == "cuttercookie.json"@);
    }
}

/// Whether every name present in the destination is the configuration file.
pub open spec fn only_config(names: Seq<Seq<char>>) -> bool {
    forall|k: int| 0 <= k < names.len() ==> #[trigger] names[k] == "cuttercookie.json"@
}

/// Checks that the destination holds nothing but, at most, the configuration file; `names`
/// are the names of its entries.
pub fn check_destination(names: &Vec<String>) -> (r: Result<(), ErrorKind>)
    ensures
        r is Ok <==> only_config(strings_view(names@)),
        r is Err ==> r->Err_0 == ErrorKind::Validation,
{
    let config = String::from_str(CONFIG_FILE_NAME);
    proof {
        reveal_strlit("cuttercookie.json");
    }
    let mut i: usize = 0;
    while i < names.len()
        invariant
            i <= names.len(),
            config@ == "cuttercookie.json"@,
            forall|k: int| 0 <= k < i ==> names@[k]@ == "cuttercookie.json"@,
        decreases names.len() - i,
    {
        if names[i] != config {
            assert(strings_view(names@)[i as int] != "cuttercookie.json"@);
            return Err(ErrorKind::Validation);
        }
        i += 1;
    }
    assert forall|k: int| 0 <= k < names@.len() implies #[trigger] strings_view(names@)[k]
        == "cuttercookie.json"@ by {
        assert(names@[k]@ == "cuttercookie.json"@);
    }
    Ok(())
}

} // verus!
