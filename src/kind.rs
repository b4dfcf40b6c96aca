use vstd::prelude::*;
use crate::error::Error;

verus! {

/// The stages of a shader pipeline that a source file can be written for.
#[derive(Clone, Copy, Debug, PartialEq, Eq, Structural)]
pub enum ShaderKind {
    Vertex,
    Fragment,
    Compute,
    Geometry,
    TessControl,
    TessEvaluation,
}

/// The file extension under which sources of a supported kind are found.
pub open spec fn ext_of(kind: ShaderKind) -> Option<Seq<char>> {
    match kind {
        ShaderKind::Vertex => Some(seq!['v', 'e', 'r', 't']),
        ShaderKind::Fragment => Some(seq!['f', 'r', 'a', 'g']),
        ShaderKind::Compute => Some(seq!['c', 'o', 'm', 'p']),
        _ => None,
    }
}

/// The extension of a source of `kind`; a kind without one is refused.
pub fn kind_ext(kind: &ShaderKind) -> (r: Result<&'static str, Error>)
    ensures
        r is Ok <==> ext_of(*kind) is Some,
        r is Ok ==> r->Ok_0@ == ext_of(*kind)->0,
        r matches Err(e) ==> e == Error::UnsupportedKind(*kind),
{
    match kind {
        ShaderKind::Vertex => {
            proof { reveal_strlit("vert"); }
            Ok("vert")
        },
        ShaderKind::Fragment => {
            proof { reveal_strlit("frag"); }
            Ok("frag")
        },
        ShaderKind::Compute => {
            proof { reveal_strlit("comp"); }
            Ok("comp")
        },
        _ => Err(Error::UnsupportedKind(*kind)),
    }
}

/// The extension given to the compiled output of a source of a supported kind.
/// It keeps the source's extension, so two kinds never share one.
pub open spec fn out_ext_of(kind: ShaderKind) -> Seq<char> {
    seq!['s', 'p', 'v', '_'] + ext_of(kind)->0
}

/// `s` with each kind kept at its first place only.
pub open spec fn dedup(s: Seq<ShaderKind>) -> Seq<ShaderKind>
    decreases s.len(),
{
    if s.len() == 0 {
        s
    } else if dedup(s.drop_last()).contains(s.last()) {
        dedup(s.drop_last())
    } else {
        dedup(s.drop_last()).push(s.last())
    }
}

/// Each kind of `kinds` once, in the order of first appearance.
pub fn deduplicate_kinds(kinds: &Vec<ShaderKind>) -> (r: Vec<ShaderKind>)
    ensures
        r@ == dedup(kinds@),
{
    let mut out: Vec<ShaderKind> = Vec::new();
    let mut i: usize = 0;
    while i < kinds.len()
        invariant
            i <= kinds@.len(),
            out@ == dedup(kinds@.take(i as int)),
        decreases kinds@.len() - i,
    {
        let kind = kinds[i];
        let mut seen = false;
        let mut j: usize = 0;
        while j < out.len()
            invariant
                j <= out@.len(),
                seen <==> out@.take(j as int).contains(kind),
            decreases out@.len() - j,
        {
            if out[j] == kind {
                seen = true;
            }
            proof {
                let t = out@.take(j as int);
                assert(out@.take(j + 1) =~= t.push(out@[j as int]));
                if t.contains(kind) {
                    let a = choose|a: int| 0 <= a < t.len() && t[a] == kind;
                    assert(t.push(out@[j as int])[a] == kind);
                }
                if t.push(out@[j as int]).contains(kind) && out@[j as int] != kind {
                    let a = choose|a: int| 0 <= a < t.len() + 1 && t.push(out@[j as int])[a] == kind;
                    assert(t[a] == kind);
                }
                assert(t.push(out@[j as int])[j as int] == out@[j as int]);
            }
            j = j + 1;
        }
        proof {
            assert(out@.take(j as int) =~= out@);
            assert(kinds@.take(i + 1).drop_last() =~= kinds@.take(i as int));
        }
        if !seen {
            out.push(kind);
        }
        i = i + 1;
    }
    proof { assert(kinds@.take(i as int) =~= kinds@); }
    out
}

/// Every kind appears at most once in `dedup(s)`, and exactly the kinds of `s` appear.
pub proof fn lemma_dedup(s: Seq<ShaderKind>)
    ensures
        dedup(s).no_duplicates(),
        forall|k: ShaderKind| dedup(s).contains(k) <==> s.contains(k),
    decreases s.len(),
{
    if s.len() > 0 {
        lemma_dedup(s.drop_last());
        assert forall|k: ShaderKind| dedup(s).contains(k) <==> s.contains(k) by {
            if s.contains(k) && k != s.last() {
                let i = choose|i: int| 0 <= i < s.len() && s[i] == k;
                assert(s.drop_last()[i] == k);
            }
            if s.drop_last().contains(k) {
                let i = choose|i: int| 0 <= i < s.drop_last().len() && s.drop_last()[i] == k;
                assert(s[i] == k);
            }
            if !dedup(s.drop_last()).contains(s.last()) {
                let d = dedup(s.drop_last());
                if d.push(s.last()).contains(k) && k != s.last() {
                    let i = choose|i: int| 0 <= i < d.push(s.last()).len() && d.push(s.last())[i] == k;
                    assert(d[i] == k);
                }
                if d.contains(k) {
                    let i = choose|i: int| 0 <= i < d.len() && d[i] == k;
                    assert(d.push(s.last())[i] == k);
                }
                assert(d.push(s.last())[d.len() as int] == s.last());
            }
        }
    }
}

} // verus!
