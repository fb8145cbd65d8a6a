//! The order of texts (as `String` compares them) and lists of profiles
//! sorted by machine id.
use vstd::prelude::*;
use crate::profile::{Profile, ProfileView};
use crate::text::chars_of;

verus! {

/// `a` comes before `b`: the order of `String`, character by character
/// by code point, a prefix first.
pub open spec fn text_less(a: Seq<char>, b: Seq<char>) -> bool
    decreases a.len(),
{
    if a.len() == 0 {
        b.len() > 0
    } else if b.len() == 0 {
        false
    } else if a[0] != b[0] {
        (a[0] as u32) < (b[0] as u32)
    } else {
        text_less(a.drop_first(), b.drop_first())
    }
}

pub proof fn lemma_text_less_irreflexive(a: Seq<char>)
    ensures
        !text_less(a, a),
    decreases a.len(),
{
    if a.len() > 0 {
        lemma_text_less_irreflexive(a.drop_first());
    }
}

pub proof fn lemma_text_less_transitive(a: Seq<char>, b: Seq<char>, c: Seq<char>)
    requires
        text_less(a, b),
        text_less(b, c),
    ensures
        text_less(a, c),
    decreases a.len(),
{
    if a.len() > 0 && b.len() > 0 && c.len() > 0 && a[0] == b[0] && b[0] == c[0] {
        lemma_text_less_transitive(a.drop_first(), b.drop_first(), c.drop_first());
    }
}

pub proof fn lemma_text_less_total(a: Seq<char>, b: Seq<char>)
    requires
        a != b,
    ensures
        text_less(a, b) || text_less(b, a),
    decreases a.len(),
{
    if a.len() > 0 && b.len() > 0 {
        if a[0] == b[0] {
            if a.drop_first() == b.drop_first() {
                assert(a =~= seq![a[0]] + a.drop_first());
                assert(b =~= seq![b[0]] + b.drop_first());
            }
            lemma_text_less_total(a.drop_first(), b.drop_first());
        } else {
            vstd::utf8::char_u32_cast(a[0], a[0] as u32);
            vstd::utf8::char_u32_cast(b[0], b[0] as u32);
        }
    } else if a.len() == 0 && b.len() == 0 {
        assert(a =~= b);
    }
}

/// Whether `a` comes before `b`.
pub fn text_before(a: &str, b: &str) -> (r: bool)
    ensures
        r == text_less(a@, b@),
{
    let x = chars_of(a);
    let y = chars_of(b);
    let mut i: usize = 0;
    assert(x@.skip(0) =~= x@);
    assert(y@.skip(0) =~= y@);
    while i < x.len() && i < y.len()
        invariant
            x@ == a@,
            y@ == b@,
            0 <= i <= x.len(),
            i <= y.len(),
            text_less(a@, b@) == text_less(x@.skip(i as int), y@.skip(i as int)),
        decreases x.len() - i,
    {
        assert(x@.skip(i as int)[0] == x@[i as int]);
        assert(y@.skip(i as int)[0] == y@[i as int]);
        if x[i] != y[i] {
            return (x[i] as u32) < (y[i] as u32);
        }
        assert(x@.skip(i as int).drop_first() =~= x@.skip(i + 1));
        assert(y@.skip(i as int).drop_first() =~= y@.skip(i + 1));
        i += 1;
    }
    i < y.len()
}

pub open spec fn views_of(v: Seq<Profile>) -> Seq<ProfileView> {
    v.map_values(|p: Profile| p@)
}

/// No two profiles share a machine id.
pub open spec fn distinct_ids(ps: Seq<ProfileView>) -> bool {
    forall|i: int, j: int|
        0 <= i < j < ps.len() ==> #[trigger] ps[i].machine_id != #[trigger] ps[j].machine_id
}

/// The profiles come in the order of their machine ids, each before the
/// next.
pub open spec fn sorted_by_id(ps: Seq<ProfileView>) -> bool {
    forall|i: int, j: int|
        0 <= i < j < ps.len() ==> text_less(#[trigger] ps[i].machine_id, #[trigger] ps[j].machine_id)
}

/// Two lists hold the same profiles.
pub open spec fn same_profiles(a: Seq<ProfileView>, b: Seq<ProfileView>) -> bool {
    &&& a.len() == b.len()
    &&& forall|x: ProfileView| a.contains(x) <==> b.contains(x)
}

/// Whether two profiles of the list share a machine id.
pub fn has_duplicate_ids(v: &Vec<Profile>) -> (r: bool)
    ensures
        r == !distinct_ids(views_of(v@)),
{
    let ghost ps = views_of(v@);
    let mut i: usize = 0;
    while i < v.len()
        invariant
            ps == views_of(v@),
            0 <= i <= v.len(),
            forall|a: int, b: int|
                0 <= a < b < ps.len() && a < i ==> #[trigger] ps[a].machine_id
                    != #[trigger] ps[b].machine_id,
        decreases v.len() - i,
    {
        let mut j: usize = i + 1;
        while j < v.len()
            invariant
                ps == views_of(v@),
                0 <= i < j <= v.len(),
                forall|a: int, b: int|
                    0 <= a < b < ps.len() && a < i ==> #[trigger] ps[a].machine_id
                        != #[trigger] ps[b].machine_id,
                forall|b: int| i < b < j ==> ps[i as int].machine_id != #[trigger] ps[b].machine_id,
            decreases v.len() - j,
        {
            if crate::text::same_text(v[i].get_machine_id(), v[j].get_machine_id()) {
                assert(ps[i as int].machine_id == ps[j as int].machine_id);
                return true;
            }
            j += 1;
        }
        i += 1;
    }
    false
}

/// Sorts profiles with distinct machine ids by machine id.
pub fn sort_by_id(v: &Vec<Profile>) -> (r: Vec<Profile>)
    requires
        distinct_ids(views_of(v@)),
    ensures
        sorted_by_id(views_of(r@)),
        same_profiles(views_of(r@), views_of(v@)),
{
    let ghost ps = views_of(v@);
    let mut out: Vec<Profile> = Vec::new();
    let mut i: usize = 0;
    assert(views_of(out@) =~= ps.take(0));
    while i < v.len()
        invariant
            ps == views_of(v@),
            distinct_ids(ps),
            0 <= i <= v.len(),
            sorted_by_id(views_of(out@)),
            same_profiles(views_of(out@), ps.take(i as int)),
        decreases v.len() - i,
    {
        let ghost os = views_of(out@);
        let ghost x = ps[i as int];
        let mut pos: usize = 0;
        while pos < out.len() && text_before(out[pos].get_machine_id(), v[i].get_machine_id())
            invariant
                os == views_of(out@),
                i < v.len(),
                x == v@[i as int]@,
                0 <= pos <= out.len(),
                forall|k: int| 0 <= k < pos ==> text_less(#[trigger] os[k].machine_id, x.machine_id),
            decreases out.len() - pos,
        {
            pos += 1;
        }
        proof {
            // `x` differs in machine id from everything already placed.
            assert forall|k: int| 0 <= k < os.len() implies #[trigger] os[k].machine_id
                != x.machine_id by {
                assert(ps.take(i as int).contains(os[k]));
                let w = choose|w: int| 0 <= w < i && ps.take(i as int)[w] == os[k];
                assert(ps[w] == os[k]);
            }
            if pos < os.len() {
                assert(!text_less(os[pos as int].machine_id, x.machine_id));
                lemma_text_less_total(os[pos as int].machine_id, x.machine_id);
                assert forall|k: int| pos <= k < os.len() implies text_less(
                    x.machine_id,
                    #[trigger] os[k].machine_id,
                ) by {
                    if k > pos {
                        lemma_text_less_transitive(
                            x.machine_id,
                            os[pos as int].machine_id,
                            os[k].machine_id,
                        );
                    }
                }
            }
        }
        out.insert(pos, v[i].duplicate());
        proof {
            let ns = views_of(out@);
            assert(ns =~= os.insert(pos as int, x));
            assert forall|a: int, b: int| 0 <= a < b < ns.len() implies text_less(
                #[trigger] ns[a].machine_id,
                #[trigger] ns[b].machine_id,
            ) by {
                if a < pos && b < pos {
                    assert(ns[a] == os[a] && ns[b] == os[b]);
                } else if a < pos && b == pos {
                    assert(ns[a] == os[a]);
                } else if a < pos && b > pos {
                    assert(ns[a] == os[a] && ns[b] == os[b - 1]);
                    assert(text_less(os[a].machine_id, x.machine_id));
                    lemma_text_less_transitive(os[a].machine_id, x.machine_id, os[b - 1].machine_id);
                } else if a == pos {
                    assert(ns[b] == os[b - 1]);
                } else {
                    assert(ns[a] == os[a - 1] && ns[b] == os[b - 1]);
                }
            }
            let t = ps.take(i + 1);
            assert(t =~= ps.take(i as int).push(x));
            assert forall|y: ProfileView| ns.contains(y) <==> t.contains(y) by {
                if ns.contains(y) {
                    let w = choose|w: int| 0 <= w < ns.len() && ns[w] == y;
                    if w < pos {
                        assert(os.contains(y) && os[w] == y);
                    } else if w > pos {
                        assert(os[w - 1] == y);
                        assert(os.contains(y));
                    }
                    if y != x {
                        assert(ps.take(i as int).contains(y));
                        let u = choose|u: int| 0 <= u < i && ps.take(i as int)[u] == y;
                        assert(t[u] == y);
                    } else {
                        assert(t[i as int] == y);
                    }
                }
                if t.contains(y) {
                    let w = choose|w: int| 0 <= w < t.len() && t[w] == y;
                    if w < i {
                        assert(ps.take(i as int)[w] == y);
                        assert(os.contains(y));
                        let u = choose|u: int| 0 <= u < os.len() && os[u] == y;
                        if u < pos {
                            assert(ns[u] == y);
                        } else {
                            assert(ns[u + 1] == y);
                        }
                    } else {
                        assert(ns[pos as int] == y);
                    }
                }
            }
        }
        i += 1;
    }
    assert(ps.take(i as int) =~= ps);
    out
}

} // verus!
