use vstd::prelude::*;
use vstd::string::{StringExecFns, StrSliceExecFns};
use crate::kind::{ShaderKind, ext_of, out_ext_of, kind_ext};

verus! {

/// Where the compiled form of the source at `loc`, found as `kind` below
/// `root`, is written below `out`: the path of the source below `root`, put
/// below `out`, with the kind's output extension in place of its own. `None`
/// where the kind has no extension or `loc` is not `root`, a separator, a
/// name and the kind's extension.
pub open spec fn output_path_of(root: Seq<char>, out: Seq<char>, loc: Seq<char>, kind: ShaderKind) -> Option<Seq<char>> {
    if ext_of(kind) is None {
        None
    } else {
        let tail = seq!['.'] + ext_of(kind)->0;
        let n = root.len() as int;
        if loc.len() >= n + 1 + tail.len() && loc.subrange(0, n) == root && loc[n] == '/'
            && loc.subrange(loc.len() - tail.len(), loc.len() as int) == tail {
            let rel = loc.subrange(n + 1, loc.len() - tail.len());
            Some(out + seq!['/'] + rel + seq!['.'] + out_ext_of(kind))
        } else {
            None
        }
    }
}

fn same_text(a: &str, b: &str) -> (r: bool)
    ensures
        r == (a@ == b@),
{
    let n = a.unicode_len();
    if n != b.unicode_len() {
        return false;
    }
    let mut i: usize = 0;
    while i < n
        invariant
            n == a@.len(),
            n == b@.len(),
            i <= n,
            forall|j: int| 0 <= j < i ==> a@[j] == b@[j],
        decreases n - i,
    {
        if a.get_char(i) != b.get_char(i) {
            return false;
        }
        i = i + 1;
    }
    proof { assert(a@ =~= b@); }
    true
}

/// The destination of the compiled form of the source at `location`, found
/// as `kind` below `search_root`, in the tree below `output_root`.
pub fn output_path(search_root: &str, output_root: &str, location: &String, kind: &ShaderKind) -> (r: Option<String>)
    ensures
        r is Some <==> output_path_of(search_root@, output_root@, location@, *kind) is Some,
        r is Some ==> r->0@ == output_path_of(search_root@, output_root@, location@, *kind)->0,
{
    let ext = match kind_ext(kind) {
        Ok(ext) => ext,
        Err(_) => return None,
    };
    let loc = location.as_str();
    let len = loc.unicode_len();
    let n = search_root.unicode_len();
    let m = ext.unicode_len();
    if len < n || len - n < m + 2 {
        return None;
    }
    let ghost tail = seq!['.'] + ext_of(*kind)->0;
    let mut dot = String::from_str(".");
    proof { reveal_strlit("."); }
    dot.append(ext);
    if !same_text(loc.substring_char(0, n), search_root) || loc.get_char(n) != '/'
        || !same_text(loc.substring_char(len - m - 1, len), dot.as_str()) {
        proof {
            assert(dot@ =~= tail);
        }
        return None;
    }
    let rel = loc.substring_char(n + 1, len - m - 1);
    let mut dest = String::from_str(output_root);
    proof { reveal_strlit("/"); reveal_strlit(".spv_"); }
    dest.append("/");
    dest.append(rel);
    dest.append(".spv_");
    dest.append(ext);
    proof {
        assert(dot@ =~= tail);
        assert(dest@ =~= output_root@ + seq!['/'] + rel@ + seq!['.'] + out_ext_of(*kind));
    }
    Some(dest)
}

} // verus!
