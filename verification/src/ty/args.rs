//! Generic-parameter lists.

use vstd::prelude::*;
use vstd::string::StringExecFns;

verus! {

/// An ordered list of generic-parameter names.
pub type GeneircArgs = Vec<String>;

/// View of a list of names.
pub open spec fn view_strings(s: Seq<String>) -> Seq<Seq<char>> {
    Seq::new(s.len(), |i: int| s[i]@)
}

/// Equality of two names, stated over their character sequences.
pub fn string_eq(a: &String, b: &String) -> (r: bool)
    ensures
        r == (a@ == b@),
{
    *a == *b
}

/// Whether a list of names contains `name`.
pub fn contains_string(v: &Vec<String>, name: &String) -> (r: bool)
    ensures
        r == view_strings(v@).contains(name@),
{
    let mut i: usize = 0;
    while i < v.len()
        invariant
            i <= v.len(),
            forall|j: int| 0 <= j < i ==> #[trigger] view_strings(v@)[j] != name@,
        decreases v.len() - i,
    {
        if string_eq(&v[i], name) {
            assert(view_strings(v@)[i as int] == name@);
            return true;
        }
        assert(view_strings(v@)[i as int] != name@);
        i = i + 1;
    }
    proof {
        if view_strings(v@).contains(name@) {
            let k = choose|k: int| 0 <= k < v@.len() && view_strings(v@)[k] == name@;
            assert(view_strings(v@)[k] == name@);
            assert(false);
        }
    }
    false
}

pub fn clone_strings(v: &Vec<String>) -> (r: Vec<String>)
    ensures
        r@.len() == v@.len(),
        forall|i: int| 0 <= i < v@.len() ==> (#[trigger] r@[i])@ == v@[i]@,
        view_strings(r@) == view_strings(v@),
{
    let mut out: Vec<String> = Vec::new();
    let mut i: usize = 0;
    while i < v.len()
        invariant
            i <= v.len(),
            out@.len() == i,
            forall|j: int| 0 <= j < i ==> (#[trigger] out@[j])@ == v@[j]@,
        decreases v.len() - i,
    {
        let c = v[i].clone();
        out.push(c);
        i = i + 1;
    }
    assert(view_strings(out@) =~= view_strings(v@));
    out
}

/// The rendering of a generic-parameter list: nothing when empty, otherwise
/// the names bracketed and comma-separated.
pub open spec fn render_generics(gs: Seq<Seq<char>>) -> Seq<char> {
    if gs.len() == 0 {
        Seq::empty()
    } else {
        seq!['['] + render_generics_list(gs) + seq![']']
    }
}

pub open spec fn render_generics_list(gs: Seq<Seq<char>>) -> Seq<char>
    decreases gs,
{
    if gs.len() == 0 {
        Seq::empty()
    } else if gs.len() == 1 {
        gs[0]
    } else {
        render_generics_list(gs.drop_last()) + seq![',', ' '] + gs.last()
    }
}

/// Rendering of generic-parameter lists.
pub trait GeneircArgsExt {
    /// The names carried by the list.
    spec fn strings_view(&self) -> Seq<Seq<char>>;

    /// The list as text.
    fn get_string(&self) -> (r: String)
        ensures
            r@ == render_generics(self.strings_view()),
    ;
}

impl GeneircArgsExt for GeneircArgs {
    open spec fn strings_view(&self) -> Seq<Seq<char>> {
        view_strings(self@)
    }

    fn get_string(&self) -> (r: String)
        ensures
            r@ == render_generics(self.strings_view()),
    {
        let ghost gv = view_strings(self@);
        if self.len() == 0 {
            let s = String::new();
            return s;
        }
        let mut s = String::new();
        s.append("[");
        let mut i: usize = 0;
        proof {
            reveal_strlit("[");
            assert(gv.take(0) =~= Seq::<Seq<char>>::empty());
            assert(s@ =~= seq!['['] + render_generics_list(gv.take(0)));
        }
        while i < self.len()
            invariant
                1 <= self@.len(),
                i <= self@.len(),
                gv == view_strings(self@),
                gv.len() == self@.len(),
                forall|j: int| 0 <= j < self@.len() ==> gv[j] == (#[trigger] self@[j])@,
                s@ == seq!['['] + render_generics_list(gv.take(i as int)),
            decreases self@.len() - i,
        {
            if i > 0 {
                s.append(", ");
                proof {
                    reveal_strlit(", ");
                }
            }
            s.append(self[i].as_str());
            proof {
                assert(gv.take(i as int + 1).drop_last() =~= gv.take(i as int));
                assert(gv.take(i as int + 1).last() == gv[i as int]);
                if i == 0 {
                    assert(gv.take(1).len() == 1);
                    assert(gv.take(1)[0] == gv[0]);
                    assert(s@ =~= seq!['['] + render_generics_list(gv.take(1)));
                } else {
                    assert(s@ =~= seq!['['] + (render_generics_list(gv.take(i as int)) + seq![
                        ',',
                        ' ',
                    ] + gv[i as int]));
                }
            }
            i = i + 1;
        }
        s.append("]");
        proof {
            reveal_strlit("]");
            assert(gv.take(gv.len() as int) =~= gv);
            assert(s@ =~= seq!['['] + render_generics_list(gv) + seq![']']);
        }
        s
    }
}

} // verus!
