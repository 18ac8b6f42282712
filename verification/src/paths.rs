//! Byte-level resolution of entry names to destination paths.
//!
//! An entry name is a sequence of bytes whose segments are separated by `/`
//! or `\`.  Resolving a name walks its segments like the zip crate's own
//! sanitizer does: a leading drive prefix (a letter and `:`) and empty
//! segments are dropped, `.` stays in place, `..` removes the segment
//! before it, and a name is rejected — and the entry skipped — exactly
//! when it holds a NUL byte or a `..` climbs above the extraction root.
//! What survives is a list of plain segments; joined with `/` they form
//! the destination path, always inside the root.  A name ending in `/`
//! denotes a directory.

use vstd::prelude::*;

verus! {

pub const SLASH: u8 = 47;
pub const BACKSLASH: u8 = 92;
pub const DOT: u8 = 46;
pub const NUL: u8 = 0;
pub const COLON: u8 = 58;

/// Both `/` and `\` separate segments.
pub open spec fn is_sep(b: u8) -> bool {
    b == SLASH || b == BACKSLASH
}

/// An ASCII letter, as a drive prefix names one.
pub open spec fn is_drive_letter(b: u8) -> bool {
    (65 <= b <= 90) || (97 <= b <= 122)
}

/// The name with a leading drive prefix (`C:`) removed.
pub open spec fn strip_drive(s: Seq<u8>) -> Seq<u8> {
    if s.len() >= 2 && s[1] == COLON && is_drive_letter(s[0]) {
        s.subrange(2, s.len() as int)
    } else {
        s
    }
}

/// A name denotes a directory when it ends in `/`.
pub open spec fn is_dir_name(s: Seq<u8>) -> bool {
    s.len() > 0 && s.last() == SLASH
}

/// Folds one segment into the component list: empty and `.` segments are
/// dropped, `..` removes the last component — or fails, when there is
/// none to remove — and any other segment is kept.
pub open spec fn norm_step(comps: Seq<Seq<u8>>, seg: Seq<u8>) -> Option<Seq<Seq<u8>>> {
    if seg.len() == 0 || seg == seq![DOT] {
        Some(comps)
    } else if seg == seq![DOT, DOT] {
        if comps.len() == 0 {
            None
        } else {
            Some(comps.drop_last())
        }
    } else {
        Some(comps.push(seg))
    }
}

/// Folds the segments of `s[i..]` into `comps`, with `cur` the partial
/// segment read so far.
pub open spec fn norm_from(s: Seq<u8>, i: int, comps: Seq<Seq<u8>>, cur: Seq<u8>) -> Option<
    Seq<Seq<u8>>,
>
    decreases s.len() - i,
{
    if i < 0 || i >= s.len() {
        norm_step(comps, cur)
    } else if is_sep(s[i]) {
        match norm_step(comps, cur) {
            None => None,
            Some(c2) => norm_from(s, i + 1, c2, Seq::empty()),
        }
    } else {
        norm_from(s, i + 1, comps, cur.push(s[i]))
    }
}

/// The component list a name resolves to, or `None` when the name holds a
/// NUL byte or a `..` that climbs above the root.
pub open spec fn normal_components(s: Seq<u8>) -> Option<Seq<Seq<u8>>> {
    if exists|i: int| 0 <= i < s.len() && s[i] == NUL {
        None
    } else {
        norm_from(strip_drive(s), 0, Seq::empty(), Seq::empty())
    }
}

/// Whether a name resolves to a destination inside the root.
pub open spec fn resolvable(s: Seq<u8>) -> bool {
    normal_components(s) is Some
}

/// The components of a resolvable name.
pub open spec fn comps_of(s: Seq<u8>) -> Seq<Seq<u8>> {
    match normal_components(s) {
        Some(cs) => cs,
        None => Seq::empty(),
    }
}

/// The components joined with `/`.
pub open spec fn join(comps: Seq<Seq<u8>>) -> Seq<u8>
    decreases comps.len(),
{
    if comps.len() == 0 {
        Seq::empty()
    } else if comps.len() == 1 {
        comps[0]
    } else {
        join(comps.drop_last()) + seq![SLASH] + comps.last()
    }
}

/// The destination path of a resolvable name.
pub open spec fn dest_of(s: Seq<u8>) -> Seq<u8> {
    join(comps_of(s))
}

/// Folds one concrete segment into the component list.
fn flush_seg(comps: &mut Vec<Vec<u8>>, seg: Vec<u8>) -> (ok: bool)
    ensures
        ok == (norm_step(old(comps)@.map_values(|c: Vec<u8>| c@), seg@) is Some),
        ok ==> Some(final(comps)@.map_values(|c: Vec<u8>| c@)) == norm_step(
            old(comps)@.map_values(|c: Vec<u8>| c@),
            seg@,
        ),
{
    if seg.len() == 0 {
        return true;
    }
    if seg.len() == 1 && seg[0] == DOT {
        proof {
            assert(seg@ =~= seq![DOT]);
        }
        return true;
    }
    if seg.len() == 2 && seg[0] == DOT && seg[1] == DOT {
        proof {
            assert(seg@ =~= seq![DOT, DOT]);
        }
        if comps.len() == 0 {
            return false;
        }
        comps.pop();
        proof {
            assert(comps@.map_values(|c: Vec<u8>| c@) =~= old(comps)@.map_values(
                |c: Vec<u8>| c@,
            ).drop_last());
        }
        return true;
    }
    proof {
        assert(seg@ != seq![DOT]);
        assert(seg@ != seq![DOT, DOT]);
    }
    comps.push(seg);
    proof {
        assert(comps@.map_values(|c: Vec<u8>| c@) =~= old(comps)@.map_values(
            |c: Vec<u8>| c@,
        ).push(comps@.last()@));
    }
    true
}

/// Resolves a concrete name to its component list, or `None` when the
/// name is rejected.
pub fn normalize_comps(name: &Vec<u8>) -> (r: Option<Vec<Vec<u8>>>)
    ensures
        (r is Some) == resolvable(name@),
        r matches Some(cs) ==> Some(cs@.map_values(|c: Vec<u8>| c@)) == normal_components(name@),
{
    let n = name.len();
    let mut i: usize = 0;
    while i < n
        invariant
            0 <= i <= n,
            n == name@.len(),
            forall|j: int| 0 <= j < i ==> name@[j] != NUL,
        decreases n - i,
    {
        if name[i] == NUL {
            return None;
        }
        i = i + 1;
    }
    let st: usize = if n >= 2 && name[1] == COLON && ((65 <= name[0] && name[0] <= 90) || (97
        <= name[0] && name[0] <= 122)) {
        2
    } else {
        0
    };
    let ghost t = strip_drive(name@);
    proof {
        assert(t =~= name@.subrange(st as int, n as int));
        assert(normal_components(name@) == norm_from(t, 0, Seq::empty(), Seq::empty()));
    }
    let mut comps: Vec<Vec<u8>> = Vec::new();
    let mut cur: Vec<u8> = Vec::new();
    proof {
        assert(comps@.map_values(|c: Vec<u8>| c@) =~= Seq::<Seq<u8>>::empty());
        assert(cur@ =~= Seq::<u8>::empty());
    }
    let mut i: usize = st;
    while i < n
        invariant
            st <= i <= n,
            n == name@.len(),
            t == strip_drive(name@),
            t == name@.subrange(st as int, n as int),
            normal_components(name@) == norm_from(
                t,
                i - st,
                comps@.map_values(|c: Vec<u8>| c@),
                cur@,
            ),
        decreases n - i,
    {
        let b = name[i];
        assert(t[i - st] == b);
        if b == SLASH || b == BACKSLASH {
            let ghost c0 = comps@.map_values(|c: Vec<u8>| c@);
            let ghost cur0 = cur@;
            let seg = cur;
            cur = Vec::new();
            if !flush_seg(&mut comps, seg) {
                proof {
                    assert(norm_from(t, i - st, c0, cur0) is None);
                }
                return None;
            }
            proof {
                assert(norm_from(t, i - st, c0, cur0) == norm_from(
                    t,
                    i - st + 1,
                    comps@.map_values(|c: Vec<u8>| c@),
                    Seq::<u8>::empty(),
                ));
                assert(cur@ =~= Seq::<u8>::empty());
            }
        } else {
            let ghost cur0 = cur@;
            cur.push(b);
            proof {
                assert(cur@ =~= cur0.push(t[i - st]));
                assert(norm_from(t, i - st, comps@.map_values(|c: Vec<u8>| c@), cur0)
                    == norm_from(t, i - st + 1, comps@.map_values(|c: Vec<u8>| c@), cur0.push(
                    t[i - st],
                )));
            }
        }
        i = i + 1;
    }
    let ghost c0 = comps@.map_values(|c: Vec<u8>| c@);
    let ghost cur0 = cur@;
    proof {
        assert(norm_from(t, i - st, c0, cur0) == norm_step(c0, cur0));
    }
    if !flush_seg(&mut comps, cur) {
        return None;
    }
    Some(comps)
}

/// Joins the first `upto` components with `/`.
pub fn join_comps(comps: &Vec<Vec<u8>>, upto: usize) -> (r: Vec<u8>)
    requires
        upto <= comps@.len(),
    ensures
        r@ == join(comps@.map_values(|c: Vec<u8>| c@).take(upto as int)),
{
    let ghost cv = comps@.map_values(|c: Vec<u8>| c@);
    let mut r: Vec<u8> = Vec::new();
    let mut k: usize = 0;
    while k < upto
        invariant
            0 <= k <= upto,
            upto <= comps@.len(),
            cv == comps@.map_values(|c: Vec<u8>| c@),
            r@ == join(cv.take(k as int)),
        decreases upto - k,
    {
        if k > 0 {
            r.push(SLASH);
        }
        let mut j: usize = 0;
        let ghost r0 = r@;
        while j < comps[k].len()
            invariant
                0 <= j <= comps@[k as int]@.len(),
                0 <= k < comps@.len(),
                cv == comps@.map_values(|c: Vec<u8>| c@),
                r@ == r0 + cv[k as int].take(j as int),
            decreases comps@[k as int]@.len() - j,
        {
            r.push(comps[k][j]);
            proof {
                assert(r@ =~= r0 + cv[k as int].take(j as int + 1));
            }
            j = j + 1;
        }
        proof {
            assert(cv[k as int].take(cv[k as int].len() as int) =~= cv[k as int]);
            assert(cv.take(k as int + 1).drop_last() =~= cv.take(k as int));
            assert(cv.take(k as int + 1).last() == cv[k as int]);
            if k == 0 {
                assert(r@ =~= join(cv.take(1)));
            } else {
                assert(r@ =~= join(cv.take(k as int)) + seq![SLASH] + cv[k as int]);
                assert(r@ =~= join(cv.take(k as int + 1)));
            }
        }
        k = k + 1;
    }
    r
}

/// Copies a byte vector.
pub fn copy_bytes(v: &Vec<u8>) -> (r: Vec<u8>)
    ensures
        r@ == v@,
{
    let mut r: Vec<u8> = Vec::new();
    let mut i: usize = 0;
    while i < v.len()
        invariant
            0 <= i <= v@.len(),
            r@ == v@.take(i as int),
        decreases v@.len() - i,
    {
        r.push(v[i]);
        proof {
            assert(r@ =~= v@.take(i as int + 1));
        }
        i = i + 1;
    }
    proof {
        assert(r@ =~= v@);
    }
    r
}

/// Compares two byte vectors for equality of contents.
pub fn bytes_eq(a: &Vec<u8>, b: &Vec<u8>) -> (r: bool)
    ensures
        r == (a@ == b@),
{
    if a.len() != b.len() {
        return false;
    }
    let mut i: usize = 0;
    while i < a.len()
        invariant
            0 <= i <= a@.len(),
            a@.len() == b@.len(),
            forall|j: int| 0 <= j < i ==> a@[j] == b@[j],
        decreases a@.len() - i,
    {
        if a[i] != b[i] {
            return false;
        }
        i = i + 1;
    }
    proof {
        assert(a@ =~= b@);
    }
    true
}

} // verus!
