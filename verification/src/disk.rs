//! Path bookkeeping for directory listings: turning the absolute paths a
//! recursive listing yields back into paths relative to the listed root.
//! Reading the file system is left to the callers around the library.

use vstd::prelude::*;

verus! {

/// The path `p` made relative to `root`: defined when `root` is a prefix
/// of `p` that ends on a path boundary, and then the remainder without its
/// leading slash.
pub open spec fn relative_of(root: Seq<char>, p: Seq<char>) -> Option<Seq<char>> {
    if p.len() >= root.len() && p.subrange(0, root.len() as int) == root {
        let rest = p.skip(root.len() as int);
        if rest.len() == 0 {
            Some(rest)
        } else if rest[0] == '/' {
            Some(rest.skip(1))
        } else if root.len() > 0 && root[root.len() - 1] == '/' {
            Some(rest)
        } else {
            None
        }
    } else {
        None
    }
}

/// The paths of `ps` that lie under `root`, each made relative to it.
pub open spec fn relative_list(root: Seq<char>, ps: Seq<Seq<char>>) -> Seq<Seq<char>>
    decreases ps.len(),
{
    if ps.len() == 0 {
        Seq::empty()
    } else {
        let tail = relative_list(root, ps.drop_first());
        match relative_of(root, ps[0]) {
            Some(r) => seq![r] + tail,
            None => tail,
        }
    }
}

/// `path` made relative to `root`, when `root` is a prefix of it on a
/// path boundary.
pub fn relative_to(root: &str, path: &str) -> (r: Option<String>)
    ensures
        match r {
            Some(rel) => relative_of(root@, path@) == Some(rel@),
            None => relative_of(root@, path@) is None,
        },
{
    let rn = root.unicode_len();
    let pn = path.unicode_len();
    if pn < rn {
        return None;
    }
    let mut i: usize = 0;
    while i < rn
        invariant
            0 <= i <= rn,
            rn == root@.len(),
            pn == path@.len(),
            rn <= pn,
            forall|k: int| 0 <= k < i ==> root@[k] == #[trigger] path@[k],
        decreases rn - i,
    {
        if root.get_char(i) != path.get_char(i) {
            assert(path@.subrange(0, rn as int)[i as int] != root@[i as int]);
            return None;
        }
        i = i + 1;
    }
    assert(path@.subrange(0, rn as int) =~= root@);
    let ghost rest = path@.skip(rn as int);
    if pn == rn {
        assert(rest =~= path@.subrange(rn as int, pn as int));
        return Some(path.substring_char(rn, pn).to_owned());
    }
    assert(rest[0] == path@[rn as int]);
    if path.get_char(rn) == '/' {
        assert(rest.skip(1) =~= path@.subrange(rn + 1, pn as int));
        return Some(path.substring_char(rn + 1, pn).to_owned());
    }
    if rn > 0 && root.get_char(rn - 1) == '/' {
        assert(rest =~= path@.subrange(rn as int, pn as int));
        return Some(path.substring_char(rn, pn).to_owned());
    }
    None
}

/// The spec view of a vector of paths.
pub open spec fn path_views(v: Seq<String>) -> Seq<Seq<char>> {
    v.map(|i: int, p: String| p@)
}

/// Every path of `paths` that lies under `root`, made relative to it, in
/// the listing's order.
pub fn relative_paths(root: &str, paths: &Vec<String>) -> (r: Vec<String>)
    ensures
        path_views(r@) == relative_list(root@, path_views(paths@)),
{
    let ghost all = path_views(paths@);
    let n = paths.len();
    let mut r: Vec<String> = Vec::new();
    let mut i: usize = 0;
    proof {
        assert(all.skip(0) =~= all);
        assert(path_views(r@) =~= Seq::<Seq<char>>::empty());
        assert(path_views(r@) + relative_list(root@, all) =~= relative_list(root@, all));
    }
    while i < n
        invariant
            0 <= i <= n,
            n == paths@.len(),
            all == path_views(paths@),
            path_views(r@) + relative_list(root@, all.skip(i as int)) == relative_list(
                root@,
                all,
            ),
        decreases n - i,
    {
        let ghost before = path_views(r@);
        let ghost rem = all.skip(i as int);
        assert(rem[0] == all[i as int]);
        assert(all[i as int] == paths@[i as int]@);
        match relative_to(root, paths[i].as_str()) {
            Some(rel) => {
                r.push(rel);
                proof {
                    assert(path_views(r@) =~= before + seq![rel@]);
                    assert(relative_list(root@, rem) == seq![rel@] + relative_list(
                        root@,
                        rem.drop_first(),
                    ));
                    assert(rem.drop_first() =~= all.skip(i + 1));
                    assert(path_views(r@) + relative_list(root@, all.skip(i + 1)) =~= before + (
                    seq![rel@] + relative_list(root@, all.skip(i + 1))));
                }
            },
            None => {
                proof {
                    assert(relative_list(root@, rem) == relative_list(root@, rem.drop_first()));
                    assert(rem.drop_first() =~= all.skip(i + 1));
                }
            },
        }
        i = i + 1;
    }
    assert(all.skip(n as int) =~= Seq::<Seq<char>>::empty());
    r
}

} // verus!
