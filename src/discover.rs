use vstd::prelude::*;
use vstd::string::StringExecFns;
use crate::error::Error;
use crate::kind::{ShaderKind, ext_of, dedup, kind_ext, deduplicate_kinds};
use crate::record::{Record, Timestamp};

verus! {

/// The search expression for sources with extension `ext` anywhere below `root`.
pub open spec fn pattern_of(root: Seq<char>, ext: Seq<char>) -> Seq<char> {
    root + seq!['/', '*', '*', '/', '*', '.'] + ext
}

/// Whether the glob matcher parses `p` as a search expression.
pub uninterp spec fn pattern_parses(p: Seq<char>) -> bool;

/// Relies on glob::Pattern::new: it parses the expression, and fails on a
/// malformed one (a bad wildcard or an unclosed range).
#[verifier::external_body]
fn parse_pattern(p: &str) -> (r: bool)
    ensures
        r == pattern_parses(p@),
{
    glob::Pattern::new(p).is_ok()
}

/// Whether a search for `kind` below `root` fails at once, and with which error.
pub open spec fn search_error(root: Seq<char>, kind: ShaderKind, e: Error) -> bool {
    match e {
        Error::UnsupportedKind(k) => ext_of(kind) is None && k == kind,
        Error::BadGlobPattern(p) => ext_of(kind) is Some && !pattern_parses(pattern_of(root, ext_of(kind)->0))
            && p@ == pattern_of(root, ext_of(kind)->0),
        _ => false,
    }
}

/// Whether a search for `kind` below `root` can be made.
pub open spec fn searchable(root: Seq<char>, kind: ShaderKind) -> bool {
    ext_of(kind) is Some && pattern_parses(pattern_of(root, ext_of(kind)->0))
}

/// The search expression for sources of `kind` below `search_root`.
pub fn search_pattern(search_root: &str, kind: &ShaderKind) -> (r: Result<String, Error>)
    ensures
        r is Ok <==> searchable(search_root@, *kind),
        r matches Ok(p) ==> p@ == pattern_of(search_root@, ext_of(*kind)->0),
        r matches Err(e) ==> search_error(search_root@, *kind, e),
{
    let ext = match kind_ext(kind) {
        Ok(ext) => ext,
        Err(e) => return Err(e),
    };
    let mut pattern = String::from_str(search_root);
    proof { reveal_strlit("/**/*."); }
    pattern.append("/**/*.");
    pattern.append(ext);
    proof {
        assert(pattern@ =~= pattern_of(search_root@, ext_of(*kind)->0));
    }
    if parse_pattern(pattern.as_str()) {
        Ok(pattern)
    } else {
        Err(Error::BadGlobPattern(pattern))
    }
}

/// One search to make: the kind sought and the expression that finds its sources.
pub struct SearchItem {
    pub kind: ShaderKind,
    pub pattern: String,
}

/// The searches for `kinds` below `search_root`: one per distinct kind, in
/// order of first request. The first kind that cannot be searched for fails
/// the whole plan.
pub fn search_plan(search_root: &str, kinds: &Vec<ShaderKind>) -> (r: Result<Vec<SearchItem>, Error>)
    ensures
        r is Ok <==> (forall|i: int| 0 <= i < dedup(kinds@).len() ==> searchable(search_root@, #[trigger] dedup(kinds@)[i])),
        r matches Ok(v) ==> v@.len() == dedup(kinds@).len() && forall|i: int| 0 <= i < v@.len() ==>
            (#[trigger] v@[i]).kind == dedup(kinds@)[i]
            && v@[i].pattern@ == pattern_of(search_root@, ext_of(dedup(kinds@)[i])->0),
        r matches Err(e) ==> exists|j: int| 0 <= j < dedup(kinds@).len()
            && (forall|i: int| 0 <= i < j ==> searchable(search_root@, #[trigger] dedup(kinds@)[i]))
            && search_error(search_root@, dedup(kinds@)[j], e),
{
    let distinct = deduplicate_kinds(kinds);
    let mut plan: Vec<SearchItem> = Vec::new();
    let mut i: usize = 0;
    while i < distinct.len()
        invariant
            distinct@ == dedup(kinds@),
            i <= distinct@.len(),
            plan@.len() == i,
            forall|a: int| 0 <= a < i ==> searchable(search_root@, #[trigger] distinct@[a]),
            forall|a: int| 0 <= a < i ==> (#[trigger] plan@[a]).kind == distinct@[a]
                && plan@[a].pattern@ == pattern_of(search_root@, ext_of(distinct@[a])->0),
        decreases distinct@.len() - i,
    {
        let kind = distinct[i];
        match search_pattern(search_root, &kind) {
            Ok(pattern) => plan.push(SearchItem { kind, pattern }),
            Err(e) => {
                proof {
                    assert(!searchable(search_root@, distinct@[i as int]));
                    assert(search_error(search_root@, dedup(kinds@)[i as int], e));
                }
                return Err(e);
            },
        }
        i = i + 1;
    }
    Ok(plan)
}

/// A source file to consider, with the kind it was found as.
pub struct CompilationCandidate {
    pub location: String,
    pub shader_kind: ShaderKind,
}

impl CompilationCandidate {
    pub open spec fn view(&self) -> (Seq<char>, ShaderKind) {
        (self.location@, self.shader_kind)
    }

    pub fn duplicate(&self) -> (r: CompilationCandidate)
        ensures
            r@ == self@,
    {
        CompilationCandidate { location: self.location.clone(), shader_kind: self.shader_kind }
    }
}

pub open spec fn candidates_view(v: Seq<CompilationCandidate>) -> Seq<(Seq<char>, ShaderKind)> {
    v.map_values(|c: CompilationCandidate| c@)
}

/// The paths found by one search, as candidates of its kind.
pub open spec fn found_as(paths: Seq<Seq<char>>, kind: ShaderKind) -> Seq<(Seq<char>, ShaderKind)> {
    paths.map_values(|p: Seq<char>| (p, kind))
}

/// The candidates that the searches of `kinds` give, where `found[i]` lists
/// the paths that the search for `kinds[i]` matched: the matches of each
/// search in turn.
pub open spec fn candidates_of(kinds: Seq<ShaderKind>, found: Seq<Seq<Seq<char>>>) -> Seq<(Seq<char>, ShaderKind)>
    decreases kinds.len(),
{
    if kinds.len() == 0 || found.len() == 0 {
        Seq::empty()
    } else {
        candidates_of(kinds.drop_last(), found.drop_last()) + found_as(found.last(), kinds.last())
    }
}

pub open spec fn paths_view(found: Seq<Vec<String>>) -> Seq<Seq<Seq<char>>> {
    found.map_values(|v: Vec<String>| v.deep_view())
}

/// The candidates that a search plan gives, where `found[i]` holds the paths
/// that the search `plan[i]` matched.
pub fn find_shaders(plan: &Vec<SearchItem>, found: &Vec<Vec<String>>) -> (r: Vec<CompilationCandidate>)
    requires
        plan@.len() == found@.len(),
    ensures
        candidates_view(r@) == candidates_of(plan@.map_values(|s: SearchItem| s.kind), paths_view(found@)),
{
    let ghost kinds = plan@.map_values(|s: SearchItem| s.kind);
    let ghost paths = paths_view(found@);
    let mut out: Vec<CompilationCandidate> = Vec::new();
    let mut i: usize = 0;
    while i < plan.len()
        invariant
            i <= plan@.len(),
            plan@.len() == found@.len(),
            kinds == plan@.map_values(|s: SearchItem| s.kind),
            paths == paths_view(found@),
            candidates_view(out@) == candidates_of(kinds.take(i as int), paths.take(i as int)),
        decreases plan@.len() - i,
    {
        let kind = plan[i].kind;
        let list = &found[i];
        let ghost before = candidates_view(out@);
        let mut j: usize = 0;
        while j < list.len()
            invariant
                i < found@.len(),
                j <= list@.len(),
                list == found@[i as int],
                candidates_view(out@) == before + found_as(list.deep_view().take(j as int), kind),
            decreases list@.len() - j,
        {
            let ghost prev = out@;
            let cand = CompilationCandidate { location: list[j].clone(), shader_kind: kind };
            out.push(cand);
            proof {
                assert(list.deep_view().take(j + 1) =~= list.deep_view().take(j as int).push(list@[j as int]@));
                assert(found_as(list.deep_view().take(j + 1), kind) =~= found_as(list.deep_view().take(j as int), kind).push((list@[j as int]@, kind)));
                assert(candidates_view(out@) =~= candidates_view(prev).push(cand@));
                assert(candidates_view(out@) =~= before + found_as(list.deep_view().take(j + 1), kind));
            }
            j = j + 1;
        }
        proof {
            assert(list.deep_view().take(j as int) =~= list.deep_view());
            assert(kinds.take(i + 1).drop_last() =~= kinds.take(i as int));
            assert(paths.take(i + 1).drop_last() =~= paths.take(i as int));
            assert(paths.take(i + 1).last() == list.deep_view());
        }
        i = i + 1;
    }
    proof {
        assert(kinds.take(i as int) =~= kinds);
        assert(paths.take(i as int) =~= paths);
    }
    out
}

/// Whether a source whose path is `path` and whose current modification time
/// is `current` must be compiled against record `rec`: it is not recorded, or
/// its time differs in any way from the recorded one (`None`: not known).
pub open spec fn is_stale(rec: Map<Seq<char>, Timestamp>, path: Seq<char>, current: Option<Timestamp>) -> bool {
    !rec.contains_key(path) || current != Some(rec[path])
}

/// The candidates of `c` that must be compiled, in order, where `t[i]` is the
/// current modification time of `c[i]`.
pub open spec fn stale_of(
    c: Seq<(Seq<char>, ShaderKind)>,
    rec: Map<Seq<char>, Timestamp>,
    t: Seq<Option<Timestamp>>,
) -> Seq<(Seq<char>, ShaderKind)>
    decreases c.len(),
{
    if c.len() == 0 || t.len() == 0 {
        Seq::empty()
    } else if is_stale(rec, c.last().0, t.last()) {
        stale_of(c.drop_last(), rec, t.drop_last()).push(c.last())
    } else {
        stale_of(c.drop_last(), rec, t.drop_last())
    }
}

/// The candidates that must be compiled. `current[i]` is the modification time
/// of `candidates[i]` as now read from disk; it needs to be known only for
/// candidates that the record holds, and a failed read of it ends the run
/// before this step.
pub fn check_against_record(
    candidates: &Vec<CompilationCandidate>,
    record: &Record,
    current: &Vec<Option<Timestamp>>,
) -> (r: Vec<CompilationCandidate>)
    requires
        record.wf(),
        candidates@.len() == current@.len(),
        forall|i: int| 0 <= i < candidates@.len() && record@.contains_key(#[trigger] candidates@[i].location@)
            ==> current@[i] is Some,
    ensures
        candidates_view(r@) == stale_of(candidates_view(candidates@), record@, current@),
{
    let ghost c = candidates_view(candidates@);
    let mut out: Vec<CompilationCandidate> = Vec::new();
    let mut i: usize = 0;
    while i < candidates.len()
        invariant
            i <= candidates@.len(),
            candidates@.len() == current@.len(),
            record.wf(),
            c == candidates_view(candidates@),
            candidates_view(out@) == stale_of(c.take(i as int), record@, current@.take(i as int)),
        decreases candidates@.len() - i,
    {
        let cand = &candidates[i];
        let stale = match record.get(&cand.location) {
            None => true,
            Some(last) => match current[i] {
                None => true,
                Some(now) => now != last,
            },
        };
        proof {
            assert(c.take(i + 1).drop_last() =~= c.take(i as int));
            assert(current@.take(i + 1).drop_last() =~= current@.take(i as int));
            assert(c.take(i + 1).last() == c[i as int]);
        }
        if stale {
            out.push(cand.duplicate());
            proof {
                assert(candidates_view(out@) =~= candidates_view(out@).drop_last().push(c[i as int]));
            }
        }
        i = i + 1;
    }
    proof {
        assert(c.take(i as int) =~= c);
        assert(current@.take(i as int) =~= current@);
    }
    out
}

} // verus!
