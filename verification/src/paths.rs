//! Path sanitization. A stored path uses backslash (or slash) separators and
//! may try to escape the output root with a drive prefix, a leading root
//! separator, or parent-directory steps. Sanitization walks the components
//! with an allow-list: only plain, non-empty names survive; the last survivor
//! is the output file's base name and the earlier ones become directories.

use crate::errors::ArchiveError;
use crate::names::lemma_deep_view_push;
use vstd::prelude::*;

verus! {

/// Byte values that separate path components: `/` and `\`.
pub open spec fn is_sep(b: u8) -> bool {
    b == 47u8 || b == 92u8
}

/// No byte of `c` is a path separator.
pub open spec fn has_no_sep(c: Seq<u8>) -> bool {
    forall|j: int| 0 <= j < c.len() ==> !is_sep(#[trigger] c[j])
}

/// The components of `s`: maximal runs of bytes between separators, in
/// order. Runs may be empty (leading, doubled or trailing separators); the
/// result is never an empty sequence of components.
pub open spec fn spec_split(s: Seq<u8>) -> Seq<Seq<u8>>
    decreases s.len(),
{
    if s.len() == 0 {
        seq![Seq::<u8>::empty()]
    } else {
        let rest = spec_split(s.drop_last());
        if is_sep(s.last()) {
            rest.push(Seq::<u8>::empty())
        } else {
            rest.update(rest.len() - 1, rest.last().push(s.last()))
        }
    }
}

/// A component the allow-list keeps: non-empty, not the current-directory
/// name `.`, not the parent-directory name `..`, and free of `:` (which marks
/// a drive prefix).
pub open spec fn good_component(c: Seq<u8>) -> bool {
    &&& c.len() > 0
    &&& c != seq![46u8]
    &&& c != seq![46u8, 46u8]
    &&& forall|j: int| 0 <= j < c.len() ==> #[trigger] c[j] != 58u8
}

/// A component that a sanitized path may hold: kept by the allow-list and
/// free of separators, so it names exactly one directory level.
pub open spec fn safe_component(c: Seq<u8>) -> bool {
    good_component(c) && has_no_sep(c)
}

/// The components of `cs` that the allow-list keeps, in order.
pub open spec fn keep_good(cs: Seq<Seq<u8>>) -> Seq<Seq<u8>>
    decreases cs.len(),
{
    if cs.len() == 0 {
        Seq::empty()
    } else {
        let rest = keep_good(cs.drop_last());
        if good_component(cs.last()) {
            rest.push(cs.last())
        } else {
            rest
        }
    }
}

/// The sanitized form of a stored path: split on separators, then keep only
/// the allow-listed components.
pub open spec fn spec_sanitize(s: Seq<u8>) -> Seq<Seq<u8>> {
    keep_good(spec_split(s))
}

/// The sanitized components rejoined with `/`.
pub open spec fn spec_join(cs: Seq<Seq<u8>>) -> Seq<u8>
    decreases cs.len(),
{
    if cs.len() == 0 {
        Seq::empty()
    } else if cs.len() == 1 {
        cs[0]
    } else {
        spec_join(cs.drop_last()) + seq![47u8] + cs.last()
    }
}

proof fn lemma_split_len(s: Seq<u8>)
    ensures
        spec_split(s).len() >= 1,
    decreases s.len(),
{
    if s.len() > 0 {
        lemma_split_len(s.drop_last());
    }
}

proof fn lemma_keep_good_push(cs: Seq<Seq<u8>>, c: Seq<u8>)
    ensures
        keep_good(cs.push(c)) == if good_component(c) {
            keep_good(cs).push(c)
        } else {
            keep_good(cs)
        },
{
    assert(cs.push(c).drop_last() =~= cs);
    assert(cs.push(c).last() == c);
}

/// Every component that sanitization keeps satisfies the allow-list.
proof fn lemma_keep_good_all_good(cs: Seq<Seq<u8>>)
    ensures
        forall|i: int|
            0 <= i < keep_good(cs).len() ==> good_component(#[trigger] keep_good(cs)[i]),
    decreases cs.len(),
{
    if cs.len() > 0 {
        lemma_keep_good_all_good(cs.drop_last());
        let rest = keep_good(cs.drop_last());
        assert forall|i: int| 0 <= i < keep_good(cs).len() implies good_component(
            #[trigger] keep_good(cs)[i],
        ) by {
            if good_component(cs.last()) && i == rest.len() {
                assert(keep_good(cs)[i] == cs.last());
            } else {
                assert(keep_good(cs)[i] == rest[i]);
            }
        }
    }
}

/// Every kept component was one of the split components.
proof fn lemma_keep_good_subset(cs: Seq<Seq<u8>>, i: int)
    requires
        0 <= i < keep_good(cs).len(),
    ensures
        cs.contains(keep_good(cs)[i]),
    decreases cs.len(),
{
    if cs.len() > 0 {
        let rest = keep_good(cs.drop_last());
        if i < rest.len() {
            lemma_keep_good_subset(cs.drop_last(), i);
            let x = keep_good(cs.drop_last())[i];
            let ghost w = choose|k: int| 0 <= k < cs.drop_last().len() && cs.drop_last()[k] == x;
            assert(cs[w] == x);
        } else {
            assert(keep_good(cs)[i] == cs.last());
            assert(cs[cs.len() - 1] == cs.last());
        }
    }
}

/// No split component holds a separator byte.
proof fn lemma_split_no_sep(s: Seq<u8>)
    ensures
        forall|i: int| 0 <= i < spec_split(s).len() ==> has_no_sep(#[trigger] spec_split(s)[i]),
    decreases s.len(),
{
    if s.len() > 0 {
        lemma_split_no_sep(s.drop_last());
        lemma_split_len(s.drop_last());
        let rest = spec_split(s.drop_last());
        if !is_sep(s.last()) {
            assert forall|i: int| 0 <= i < spec_split(s).len() implies has_no_sep(
                #[trigger] spec_split(s)[i],
            ) by {
                if i == rest.len() - 1 {
                    assert(spec_split(s)[i] == rest.last().push(s.last()));
                    assert(has_no_sep(rest.last()));
                } else {
                    assert(spec_split(s)[i] == rest[i]);
                }
            }
        }
    }
}

/// Sanitization is safety-preserving: whatever a stored path holds — `..`
/// steps, a drive prefix, a leading root separator — every component it
/// yields is a plain non-empty name free of separators, `.`, `..` and `:`,
/// so the output path built from the components lies strictly inside the
/// output root.
pub proof fn lemma_sanitize_safe(s: Seq<u8>)
    ensures
        forall|i: int|
            0 <= i < spec_sanitize(s).len() ==> safe_component(#[trigger] spec_sanitize(s)[i]),
{
    lemma_keep_good_all_good(spec_split(s));
    lemma_split_no_sep(s);
    assert forall|i: int| 0 <= i < spec_sanitize(s).len() implies safe_component(
        #[trigger] spec_sanitize(s)[i],
    ) by {
        lemma_keep_good_subset(spec_split(s), i);
        let x = spec_sanitize(s)[i];
        let ghost w = choose|k: int|
            0 <= k < spec_split(s).len() && spec_split(s)[k] == x;
        assert(has_no_sep(spec_split(s)[w]));
    }
}

/// A separator-free byte sequence splits into exactly itself.
proof fn lemma_split_nosep_single(c: Seq<u8>)
    requires
        has_no_sep(c),
    ensures
        spec_split(c) == seq![c],
    decreases c.len(),
{
    if c.len() == 0 {
        assert(c =~= Seq::<u8>::empty());
        assert(spec_split(c) =~= seq![c]);
    } else {
        assert(has_no_sep(c.drop_last()));
        lemma_split_nosep_single(c.drop_last());
        assert(!is_sep(c.last()));
        assert(spec_split(c) =~= seq![c]) by {
            assert(seq![c.drop_last()].update(0, c.drop_last().push(c.last())) =~= seq![
                c.drop_last().push(c.last()),
            ]);
            assert(c.drop_last().push(c.last()) =~= c);
        }
    }
}

/// Appending a separator to a path appends one empty component to its split.
proof fn lemma_split_append_sep(x: Seq<u8>)
    ensures
        spec_split(x + seq![47u8]) == spec_split(x).push(Seq::<u8>::empty()),
{
    assert((x + seq![47u8]).drop_last() =~= x);
    assert((x + seq![47u8]).last() == 47u8);
}

/// Appending separator-free bytes to a path extends its last component.
proof fn lemma_split_append_nosep(x: Seq<u8>, c: Seq<u8>)
    requires
        has_no_sep(c),
    ensures
        spec_split(x + c) == spec_split(x).update(
            spec_split(x).len() - 1,
            spec_split(x).last() + c,
        ),
    decreases c.len(),
{
    lemma_split_len(x);
    let sx = spec_split(x);
    if c.len() == 0 {
        assert(x + c =~= x);
        assert(sx.update(sx.len() - 1, sx.last() + c) =~= sx) by {
            assert(sx.last() + c =~= sx.last());
        }
    } else {
        assert(has_no_sep(c.drop_last()));
        lemma_split_append_nosep(x, c.drop_last());
        assert((x + c).drop_last() =~= x + c.drop_last());
        assert((x + c).last() == c.last());
        assert(!is_sep(c.last()));
        let mid = sx.update(sx.len() - 1, sx.last() + c.drop_last());
        assert(spec_split(x + c) == mid.update(mid.len() - 1, mid.last().push(c.last())));
        assert(mid.update(mid.len() - 1, mid.last().push(c.last())) =~= sx.update(
            sx.len() - 1,
            sx.last() + c,
        )) by {
            assert((sx.last() + c.drop_last()).push(c.last()) =~= sx.last() + c);
        }
    }
}

/// A sequence of safe components is a fixed point: joining it with `/` and
/// sanitizing the result gives it back unchanged.
pub proof fn lemma_sanitize_fixed(cs: Seq<Seq<u8>>)
    requires
        forall|i: int| 0 <= i < cs.len() ==> safe_component(#[trigger] cs[i]),
    ensures
        spec_sanitize(spec_join(cs)) == cs,
    decreases cs.len(),
{
    if cs.len() == 0 {
        assert(spec_join(cs) =~= Seq::<u8>::empty());
        assert(spec_split(Seq::<u8>::empty()) =~= seq![Seq::<u8>::empty()]);
        assert(seq![Seq::<u8>::empty()].drop_last() =~= Seq::<Seq<u8>>::empty());
        assert(keep_good(Seq::<Seq<u8>>::empty()) == Seq::<Seq<u8>>::empty());
        assert(!good_component(Seq::<u8>::empty()));
        assert(spec_sanitize(spec_join(cs)) =~= cs);
    } else if cs.len() == 1 {
        assert(safe_component(cs[0]));
        assert(spec_join(cs) == cs[0]);
        lemma_split_nosep_single(cs[0]);
        assert(seq![cs[0]].drop_last() =~= Seq::<Seq<u8>>::empty());
        assert(keep_good(Seq::<Seq<u8>>::empty()) == Seq::<Seq<u8>>::empty());
        assert(seq![cs[0]].last() == cs[0]);
        assert(spec_sanitize(spec_join(cs)) =~= cs);
    } else {
        let front = cs.drop_last();
        let c = cs.last();
        assert(safe_component(c));
        assert(forall|i: int| 0 <= i < front.len() ==> safe_component(#[trigger] front[i]));
        lemma_sanitize_fixed(front);
        let a = spec_join(front);
        assert(spec_join(cs) == a + seq![47u8] + c);
        lemma_split_append_sep(a);
        lemma_split_append_nosep(a + seq![47u8], c);
        lemma_split_len(a);
        let sa = spec_split(a);
        assert(spec_split(a + seq![47u8]) == sa.push(Seq::<u8>::empty()));
        assert((a + seq![47u8]) + c =~= a + seq![47u8] + c);
        assert(spec_split(a + seq![47u8] + c) =~= sa.push(c)) by {
            assert(sa.push(Seq::<u8>::empty()).last() =~= Seq::<u8>::empty());
            assert(Seq::<u8>::empty() + c =~= c);
            assert(sa.push(Seq::<u8>::empty()).update(sa.len() as int, c) =~= sa.push(c));
        }
        lemma_keep_good_push(sa, c);
        assert(keep_good(sa.push(c)) == keep_good(sa).push(c));
        assert(keep_good(sa) == front);
        assert(front.push(c) =~= cs);
    }
}

/// Sanitization is idempotent: sanitizing the rejoined sanitized components
/// changes nothing.
pub proof fn lemma_sanitize_idempotent(s: Seq<u8>)
    ensures
        spec_sanitize(spec_join(spec_sanitize(s))) == spec_sanitize(s),
{
    lemma_sanitize_safe(s);
    lemma_sanitize_fixed(spec_sanitize(s));
}

/// Whether the allow-list keeps this component.
fn is_good_component(c: &Vec<u8>) -> (r: bool)
    ensures
        r == good_component(c@),
{
    if c.len() == 0 {
        return false;
    }
    if c.len() == 1 && c[0] == 46u8 {
        proof {
            assert(c@ =~= seq![46u8]);
        }
        return false;
    }
    if c.len() == 2 && c[0] == 46u8 && c[1] == 46u8 {
        proof {
            assert(c@ =~= seq![46u8, 46u8]);
        }
        return false;
    }
    let mut i: usize = 0;
    while i < c.len()
        invariant
            0 <= i <= c@.len(),
            forall|j: int| 0 <= j < i ==> #[trigger] c@[j] != 58u8,
        decreases c@.len() - i,
    {
        if c[i] == 58u8 {
            return false;
        }
        i = i + 1;
    }
    true
}

/// Sanitize one stored path: split it on `/` and `\` and keep only the
/// allow-listed components. Succeeds exactly when at least one component
/// survives; the survivors come back in order, the last being the output
/// file's base name. A path with no survivor is a fatal format error.
pub fn sanitize_path(name: &Vec<u8>) -> (r: Result<Vec<Vec<u8>>, ArchiveError>)
    ensures
        r.is_ok() <==> spec_sanitize(name@).len() > 0,
        r.is_ok() ==> r.unwrap().deep_view() == spec_sanitize(name@) && r.unwrap()@.len() > 0,
        r.is_err() ==> r->Err_0 == ArchiveError::EmptyPath,
{
    let mut comps: Vec<Vec<u8>> = Vec::new();
    let mut cur: Vec<u8> = Vec::new();
    let ghost mut all: Seq<Seq<u8>> = Seq::empty();
    proof {
        assert(name@.take(0) =~= Seq::<u8>::empty());
        assert(spec_split(Seq::<u8>::empty()) =~= seq![Seq::<u8>::empty()]);
        assert(all.push(cur@) =~= seq![Seq::<u8>::empty()]);
        assert(keep_good(all) == Seq::<Seq<u8>>::empty());
        assert(comps.deep_view() =~= Seq::<Seq<u8>>::empty());
    }
    let mut k: usize = 0;
    while k < name.len()
        invariant
            0 <= k <= name@.len(),
            spec_split(name@.take(k as int)) == all.push(cur@),
            comps.deep_view() == keep_good(all),
        decreases name@.len() - k,
    {
        let b = name[k];
        proof {
            assert(name@.take(k + 1) =~= name@.take(k as int).push(name@[k as int]));
            assert(name@.take(k + 1).drop_last() =~= name@.take(k as int));
        }
        if b == 47u8 || b == 92u8 {
            let finished = cur;
            cur = Vec::new();
            let ghost pre_all = all;
            proof {
                all = all.push(finished@);
                lemma_keep_good_push(pre_all, finished@);
                assert(spec_split(name@.take(k + 1)) == all.push(cur@)) by {
                    assert(spec_split(name@.take(k + 1)) == spec_split(
                        name@.take(k as int),
                    ).push(Seq::<u8>::empty()));
                }
            }
            if is_good_component(&finished) {
                let ghost prev = comps;
                comps.push(finished);
                proof {
                    lemma_deep_view_push(comps, prev, finished);
                }
            }
        } else {
            let ghost pre_cur = cur@;
            cur.push(b);
            proof {
                assert(spec_split(name@.take(k + 1)) == all.push(cur@)) by {
                    let rest = spec_split(name@.take(k as int));
                    assert(rest == all.push(pre_cur));
                    assert(rest.update(rest.len() - 1, rest.last().push(b)) =~= all.push(
                        pre_cur.push(b),
                    ));
                }
            }
        }
        k = k + 1;
    }
    proof {
        assert(name@.take(name@.len() as int) =~= name@);
    }
    let finished = cur;
    let ghost pre_all = all;
    proof {
        all = all.push(finished@);
        lemma_keep_good_push(pre_all, finished@);
    }
    if is_good_component(&finished) {
        let ghost prev = comps;
        comps.push(finished);
        proof {
            lemma_deep_view_push(comps, prev, finished);
        }
    }
    proof {
        assert(comps.deep_view() == spec_sanitize(name@));
        assert(comps@.len() == comps.deep_view().len());
    }
    if comps.len() == 0 {
        Err(ArchiveError::EmptyPath)
    } else {
        Ok(comps)
    }
}

} // verus!
