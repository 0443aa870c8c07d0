use std::collections::{HashSet, VecDeque};
use vstd::prelude::*;
use vstd::slice::slice_subrange;
use crate::bytes::{le16, le32, le64};
use crate::dirent::{dirents_result, entries_view, DirEnt, MyDirEnt};
use crate::error::FormatError;
use crate::inode::{
    decode_inode, header_size_for, layout_of, layout_tag, InodeDataLayout, COMPACT_INODE_SIZE, S_IFDIR,
    S_IFMT,
};
use crate::layout::ContentLocation;
use crate::sb::{get_inode_offset, Superblock};

verus! {

/// A decoded directory listing, or the error met on the way to it.
pub type Listing = Result<Seq<(DirEnt, Seq<char>)>, FormatError>;

/// The entries found in `bytes[start..end]`, or `Truncated` where the window leaves `bytes`.
pub open spec fn listing_in(bytes: Seq<u8>, start: int, end: int) -> Listing {
    if end > bytes.len() {
        Err(FormatError::Truncated)
    } else {
        dirents_result(bytes.subrange(start, end))
    }
}

/// What the node `nid` of `img` gives to a walk: `None` for an inode that is not a
/// directory, else its listing or the error met on the way to it.
pub open spec fn node_result(img: Seq<u8>, sb: Superblock, nid: u64) -> Option<Listing> {
    let off = sb.spec_inode_offset(nid);
    if off > usize::MAX || off >= img.len() || off + header_size_for(img[off]) > img.len() {
        Some(Err(FormatError::Truncated))
    } else {
        let b = img.subrange(off, img.len() as int);
        let hs = header_size_for(img[off]);
        if le16(b, 4) & S_IFMT != S_IFDIR {
            None
        } else {
            match layout_of(layout_tag(le16(b, 0))) {
                Err(e) => Some(Err(e)),
                Ok(InodeDataLayout::FlatPlain) => {
                    let start = le32(b, 16) * sb.spec_block_size();
                    Some(listing_in(img, start, start + sb.spec_block_size()))
                },
                Ok(InodeDataLayout::FlatInline) => {
                    let size = if hs == COMPACT_INODE_SIZE as int {
                        le32(b, 8) as int
                    } else {
                        le64(b, 8) as int
                    };
                    Some(listing_in(b, hs, hs + size))
                },
                Ok(l) => Some(Err(FormatError::Unsupported(l))),
            }
        }
    }
}

/// A listing of entries, as its model.
pub open spec fn listing_view(r: Result<Vec<MyDirEnt>, FormatError>) -> Listing {
    match r {
        Ok(v) => Ok(entries_view(v@)),
        Err(e) => Err(e),
    }
}

/// Reads the node `nid`: `None` where its inode is not a directory, else its entries or
/// the error met while decoding its inode, its layout or its content.
pub fn read_directory(image: &[u8], superblock: &Superblock, nid: u64) -> (r: Option<
    Result<Vec<MyDirEnt>, FormatError>,
>)
    requires
        superblock.blkszbits < 64,
    ensures
        match r {
            None => node_result(image@, *superblock, nid) is None,
            Some(x) => node_result(image@, *superblock, nid) == Some(listing_view(x)),
        },
{
    let offset = match get_inode_offset(superblock, nid) {
        Some(o) => o,
        None => return Some(Err(FormatError::Truncated)),
    };
    let inode = match decode_inode(image, offset) {
        Ok(i) => i,
        Err(e) => return Some(Err(e)),
    };
    if !inode.is_dir() {
        return None;
    }
    let layout = match inode.data_layout() {
        Ok(l) => l,
        Err(e) => return Some(Err(e)),
    };
    let data = slice_subrange(image, offset, image.len());
    match inode.parse_inode(layout, data, image, superblock) {
        Ok(ContentLocation::Directory(v)) => Some(Ok(v)),
        Ok(ContentLocation::Unsupported(l)) => Some(Err(FormatError::Unsupported(l))),
        // A directory never resolves to a raw range.
        Ok(_) => None,
        Err(e) => Some(Err(e)),
    }
}

/// One visited directory node: its identifier and its entries, or why they could not be read.
#[derive(Debug)]
pub struct Visit {
    pub nid: u64,
    pub entries: Result<Vec<MyDirEnt>, FormatError>,
}

/// A name that a walk does not descend through: `.` or `..`.
pub open spec fn is_dot_name(name: Seq<char>) -> bool {
    name == seq!['.'] || name == seq!['.', '.']
}

/// The node identifiers of a sequence of visits, in order.
pub open spec fn visit_nids(r: Seq<Visit>) -> Seq<u64> {
    r.map_values(|v: Visit| v.nid)
}

/// `child` is named by an entry of `s` other than `.` and `..`.
pub open spec fn names_child(s: Seq<(DirEnt, Seq<char>)>, child: u64) -> bool {
    exists|j: int| 0 <= j < s.len() && !is_dot_name(#[trigger] s[j].1) && s[j].0.nid == child
}

/// `child` is named by an entry of the listing `l` other than `.` and `..`.
pub open spec fn is_child(l: Listing, child: u64) -> bool {
    l matches Ok(s) && names_child(s, child)
}

/// `x` is named as a child by one of the first `upto` visits of `r`.
pub open spec fn reached_from(r: Seq<Visit>, upto: int, x: u64) -> bool {
    exists|k: int| 0 <= k < upto && #[trigger] is_child(listing_view(r[k].entries), x)
}

proof fn lemma_reached_grow(r: Seq<Visit>, v: Visit, upto: int, x: u64)
    requires
        reached_from(r, upto, x),
        upto <= r.len(),
    ensures
        reached_from(r.push(v), upto, x),
        reached_from(r.push(v), r.len() as int + 1, x),
{
    let k = choose|k: int| 0 <= k < upto && #[trigger] is_child(listing_view(r[k].entries), x);
    assert(r.push(v)[k] == r[k]);
    assert(is_child(listing_view(r.push(v)[k].entries), x));
}

proof fn lemma_push_contains(s: Seq<u64>, v: u64)
    ensures
        s.push(v).contains(v),
        forall|x: u64| #[trigger] s.push(v).contains(x) <==> x == v || s.contains(x),
{
    assert forall|x: u64| #[trigger] s.push(v).contains(x) && x != v implies s.contains(x) by {
        let i = choose|i: int| 0 <= i < s.len() + 1 && s.push(v)[i] == x;
        assert(s[i] == x);
    }
    assert(s.push(v)[s.len() as int] == v);
    assert forall|x: u64| s.contains(x) implies #[trigger] s.push(v).contains(x) by {
        let i = choose|i: int| 0 <= i < s.len() && s[i] == x;
        assert(s.push(v)[i] == x);
    }
}

proof fn lemma_pop_front(s: Seq<u64>)
    requires
        s.len() > 0,
    ensures
        forall|x: u64|
            #[trigger] s.contains(x) ==> x == s[0] || s.subrange(1, s.len() as int).contains(x),
        forall|x: u64| #[trigger] s.subrange(1, s.len() as int).contains(x) ==> s.contains(x),
{
    assert forall|x: u64| #[trigger] s.subrange(1, s.len() as int).contains(x) implies s.contains(x) by {
        let i = choose|i: int| 0 <= i < s.len() - 1 && s.subrange(1, s.len() as int)[i] == x;
        assert(s[i + 1] == x);
    }
    assert forall|x: u64| #[trigger] s.contains(x) implies x == s[0] || s.subrange(
        1,
        s.len() as int,
    ).contains(x) by {
        let i = choose|i: int| 0 <= i < s.len() && s[i] == x;
        if i > 0 {
            assert(s.subrange(1, s.len() as int)[i - 1] == x);
        }
    }
}

/// The nodes that the entries `s` name, in order, leaving out `.` and `..`.
pub open spec fn child_nids(s: Seq<(DirEnt, Seq<char>)>) -> Seq<u64>
    decreases s.len(),
{
    if s.len() == 0 {
        Seq::empty()
    } else if is_dot_name(s.last().1) {
        child_nids(s.drop_last())
    } else {
        child_nids(s.drop_last()).push(s.last().0.nid)
    }
}

/// The nodes that a listing sends a walk on to: none where it is an error.
pub open spec fn listing_children(l: Listing) -> Seq<u64> {
    match l {
        Ok(s) => child_nids(s),
        Err(_) => Seq::empty(),
    }
}

/// The state of a breadth-first walk: the nodes waiting, in order, the nodes already
/// taken from the queue, and the directory nodes recorded so far, in order.
pub struct WalkState {
    pub queue: Seq<u64>,
    pub visited: Set<u64>,
    pub order: Seq<u64>,
}

/// One step of the walk: take the first node off the queue; where it was not taken before,
/// mark it, and where it is a directory (or fails to read) record it and append the nodes
/// its listing names to the back of the queue. With an empty queue the walk is done.
pub open spec fn walk_next(img: Seq<u8>, sb: Superblock, st: WalkState) -> WalkState {
    if st.queue.len() == 0 {
        st
    } else {
        let nid = st.queue[0];
        let rest = st.queue.subrange(1, st.queue.len() as int);
        if st.visited.contains(nid) {
            WalkState { queue: rest, visited: st.visited, order: st.order }
        } else {
            match node_result(img, sb, nid) {
                None => WalkState { queue: rest, visited: st.visited.insert(nid), order: st.order },
                Some(l) => WalkState {
                    queue: rest + listing_children(l),
                    visited: st.visited.insert(nid),
                    order: st.order.push(nid),
                },
            }
        }
    }
}

/// The state of the walk from `root` after `n` steps.
pub open spec fn walk_state(img: Seq<u8>, sb: Superblock, root: u64, n: nat) -> WalkState
    decreases n,
{
    if n == 0 {
        WalkState { queue: seq![root], visited: Set::empty(), order: Seq::empty() }
    } else {
        walk_next(img, sb, walk_state(img, sb, root, (n - 1) as nat))
    }
}

proof fn lemma_child_nids(s: Seq<(DirEnt, Seq<char>)>)
    ensures
        forall|c: u64| #[trigger] child_nids(s).contains(c) <==> names_child(s, c),
    decreases s.len(),
{
    if s.len() > 0 {
        let p = s.drop_last();
        lemma_child_nids(p);
        assert forall|c: u64| #[trigger] child_nids(s).contains(c) <==> names_child(s, c) by {
            if names_child(p, c) {
                let j = choose|j: int| 0 <= j < p.len() && !is_dot_name(#[trigger] p[j].1) && p[j].0.nid == c;
                assert(s[j] == p[j]);
            }
            if names_child(s, c) {
                let j = choose|j: int| 0 <= j < s.len() && !is_dot_name(#[trigger] s[j].1) && s[j].0.nid == c;
                if j < p.len() {
                    assert(p[j] == s[j]);
                }
            }
            if !is_dot_name(s.last().1) {
                lemma_push_contains(child_nids(p), s.last().0.nid);
                assert(s[s.len() - 1] == s.last());
            }
        }
    }
}

proof fn lemma_concat_contains(a: Seq<u64>, b: Seq<u64>)
    ensures
        forall|x: u64| #[trigger] (a + b).contains(x) <==> a.contains(x) || b.contains(x),
{
    assert forall|x: u64| #[trigger] (a + b).contains(x) <==> a.contains(x) || b.contains(x) by {
        if (a + b).contains(x) {
            let i = choose|i: int| 0 <= i < a.len() + b.len() && (a + b)[i] == x;
            if i >= a.len() {
                assert(b[i - a.len()] == x);
            }
        }
        if a.contains(x) {
            let i = choose|i: int| 0 <= i < a.len() && a[i] == x;
            assert((a + b)[i] == x);
        }
        if b.contains(x) {
            let i = choose|i: int| 0 <= i < b.len() && b[i] == x;
            assert((a + b)[a.len() + i] == x);
        }
    }
}

/// Appends to `queue` the nodes that `entries` name, in order, leaving out `.` and `..`.
fn enqueue_children(queue: &mut VecDeque<u64>, entries: &Vec<MyDirEnt>, dot: &String, dotdot: &String)
    requires
        dot@ == seq!['.'],
        dotdot@ == seq!['.', '.'],
    ensures
        final(queue)@ == old(queue)@ + child_nids(entries_view(entries@)),
{
    let ghost q0 = queue@;
    let ghost s = entries_view(entries@);
    let mut j: usize = 0;
    while j < entries.len()
        invariant
            j <= entries@.len(),
            dot@ == seq!['.'],
            dotdot@ == seq!['.', '.'],
            s == entries_view(entries@),
            queue@ == q0 + child_nids(s.subrange(0, j as int)),
        decreases entries@.len() - j,
    {
        let e = &entries[j];
        proof {
            let sj = s.subrange(0, j as int + 1);
            assert(sj.drop_last() =~= s.subrange(0, j as int));
            assert(sj.last() == entries@[j as int]@);
        }
        let ghost sj = s.subrange(0, j as int + 1);
        let ghost prev = child_nids(s.subrange(0, j as int));
        assert(e.name@ == sj.last().1);
        if !(e.name == *dot) && !(e.name == *dotdot) {
            queue.push_back(e.dirent.nid);
            proof {
                assert(!is_dot_name(sj.last().1));
                assert(child_nids(sj) == prev.push(e.dirent.nid));
                assert(queue@ =~= q0 + child_nids(sj));
            }
        } else {
            proof {
                assert(is_dot_name(sj.last().1));
                assert(child_nids(sj) == prev);
            }
        }
        j = j + 1;
    }
    assert(s.subrange(0, entries@.len() as int) =~= s);
}

/// Walks the directory tree breadth-first from the root node, and returns each directory
/// node reached with its entries, in the order visited. Entries named `.` and `..` are not
/// followed, and a node is visited at most once, so the walk ends on any image, cyclic
/// ones included. The visits are exactly the directory nodes that the breadth-first
/// walk records, in its order, once its queue has run empty.
pub fn walk(image: &[u8], superblock: &Superblock) -> (r: Vec<Visit>)
    requires
        superblock.blkszbits < 64,
    ensures
        visit_nids(r@).no_duplicates(),
        forall|i: int|
            0 <= i < r@.len() ==> node_result(image@, *superblock, (#[trigger] r@[i]).nid) == Some(
                listing_view(r@[i].entries),
            ),
        node_result(image@, *superblock, superblock.root_nid as u64) is Some ==> visit_nids(
            r@,
        ).contains(superblock.root_nid as u64),
        forall|i: int, child: u64|
            0 <= i < r@.len() && is_child(listing_view((#[trigger] r@[i]).entries), child)
                && node_result(image@, *superblock, child) is Some ==> #[trigger] visit_nids(
                r@,
            ).contains(child),
        forall|i: int|
            0 <= i < r@.len() ==> (#[trigger] r@[i]).nid == superblock.root_nid as u64
                || reached_from(r@, i, r@[i].nid),
        exists|n: nat|
            {
                let st = #[trigger] walk_state(image@, *superblock, superblock.root_nid as u64, n);
                st.queue.len() == 0 && st.order == visit_nids(r@)
            },
{
    broadcast use vstd::std_specs::hash::group_hash_axioms;

    let ghost img = image@;
    let ghost sb = *superblock;
    let root = superblock.root_nid as u64;
    let mut queue: VecDeque<u64> = VecDeque::new();
    queue.push_back(root);
    assert(queue@[0] == root);
    let mut visited: HashSet<u64> = HashSet::new();
    let ghost mut steps: nat = 0;
    assert(walk_state(img, sb, root, 0).queue =~= queue@);
    assert(visited@ =~= Set::<u64>::empty());
    let mut out: Vec<Visit> = Vec::new();
    let dot = ".".to_owned();
    let dotdot = "..".to_owned();
    assert(visit_nids(out@) =~= Seq::<u64>::empty());
    proof {
        reveal_strlit(".");
        reveal_strlit("..");
    }
    loop
        invariant
            img == image@,
            sb == *superblock,
            superblock.blkszbits < 64,
            dot@ == seq!['.'],
            dotdot@ == seq!['.', '.'],
            visited@.finite(),
            walk_state(img, sb, root, steps) == (WalkState {
                queue: queue@,
                visited: visited@,
                order: visit_nids(out@),
            }),
            visit_nids(out@).no_duplicates(),
            forall|i: int| 0 <= i < out@.len() ==> visited@.contains((#[trigger] out@[i]).nid),
            forall|i: int|
                0 <= i < out@.len() ==> node_result(img, sb, (#[trigger] out@[i]).nid) == Some(
                    listing_view(out@[i].entries),
                ),
            forall|x: u64|
                #[trigger] visited@.contains(x) && node_result(img, sb, x) is Some
                    ==> visit_nids(out@).contains(x),
            forall|i: int, child: u64|
                0 <= i < out@.len() && is_child(listing_view((#[trigger] out@[i]).entries), child)
                    ==> #[trigger] visited@.contains(child) || queue@.contains(child),
            visited@.contains(root) || queue@.contains(root),
            forall|x: u64|
                #[trigger] queue@.contains(x) ==> x == root || reached_from(out@, out@.len() as int, x),
            forall|i: int|
                0 <= i < out@.len() ==> (#[trigger] out@[i]).nid == root || reached_from(
                    out@,
                    i,
                    out@[i].nid,
                ),
        ensures
            walk_state(img, sb, root, steps).queue.len() == 0,
            walk_state(img, sb, root, steps).order == visit_nids(out@),
            visit_nids(out@).no_duplicates(),
            forall|i: int|
                0 <= i < out@.len() ==> node_result(img, sb, (#[trigger] out@[i]).nid) == Some(
                    listing_view(out@[i].entries),
                ),
            forall|x: u64|
                #[trigger] visited@.contains(x) && node_result(img, sb, x) is Some
                    ==> visit_nids(out@).contains(x),
            forall|i: int, child: u64|
                0 <= i < out@.len() && is_child(listing_view((#[trigger] out@[i]).entries), child)
                    ==> #[trigger] visited@.contains(child),
            visited@.contains(root),
            forall|i: int|
                0 <= i < out@.len() ==> (#[trigger] out@[i]).nid == root || reached_from(
                    out@,
                    i,
                    out@[i].nid,
                ),
        decreases usize::MAX - visited@.len(), queue@.len(),
    {
        let ghost q0 = queue@;
        let ghost st0 = walk_state(img, sb, root, steps);
        let nid = match queue.pop_front() {
            Some(n) => n,
            None => {
                assert(forall|x: u64| !(#[trigger] queue@.contains(x)));
                break;
            },
        };
        proof {
            lemma_pop_front(q0);
            assert(q0[0] == nid);
            assert(q0.contains(nid));
            assert(nid == root || reached_from(out@, out@.len() as int, nid));
        }
        if visited.contains(&nid) {
            proof {
                steps = steps + 1;
                assert(walk_state(img, sb, root, steps) == walk_next(img, sb, st0));
            }
            continue;
        }
        let ghost v0 = visited@;
        visited.insert(nid);
        proof {
            assert(visited@.len() == visited.len());
        }
        let listing = match read_directory(image, superblock, nid) {
            Some(l) => l,
            None => {
                proof {
                    steps = steps + 1;
                    assert(walk_state(img, sb, root, steps) == walk_next(img, sb, st0));
                }
                continue;
            },
        };
        let ghost q1 = queue@;
        if let Ok(entries) = &listing {
            enqueue_children(&mut queue, entries, &dot, &dotdot);
        }
        proof {
            assert(queue@ == q1 + listing_children(listing_view(listing)));
            lemma_concat_contains(q1, listing_children(listing_view(listing)));
            if let Ok(s) = listing_view(listing) {
                lemma_child_nids(s);
            }
        }
        let ghost o0 = out@;
        let ghost lv = listing_view(listing);
        out.push(Visit { nid, entries: listing });
        proof {
            let v = out@[o0.len() as int];
            assert(out@ == o0.push(v));
            assert forall|x: u64| #[trigger] queue@.contains(x) implies x == root || reached_from(
                out@,
                out@.len() as int,
                x,
            ) by {
                if x != root {
                    if reached_from(o0, o0.len() as int, x) {
                        lemma_reached_grow(o0, v, o0.len() as int, x);
                    } else {
                        assert(is_child(lv, x));
                        assert(is_child(listing_view(out@[o0.len() as int].entries), x));
                    }
                }
            }
            assert forall|i: int| 0 <= i < out@.len() implies (#[trigger] out@[i]).nid == root
                || reached_from(out@, i, out@[i].nid) by {
                if i < o0.len() {
                    assert(out@[i] == o0[i]);
                    if o0[i].nid != root {
                        lemma_reached_grow(o0, v, i, o0[i].nid);
                    }
                } else if nid != root {
                    lemma_reached_grow(o0, v, o0.len() as int, nid);
                }
            }
            assert(visit_nids(out@) =~= visit_nids(o0).push(nid));
            lemma_push_contains(visit_nids(o0), nid);
            assert(!visit_nids(o0).contains(nid)) by {
                if visit_nids(o0).contains(nid) {
                    let i = choose|i: int| 0 <= i < visit_nids(o0).len() && visit_nids(o0)[i] == nid;
                    assert(o0[i].nid == nid);
                    assert(v0.contains(o0[i].nid));
                }
            }
            assert(out@[o0.len() as int] == Visit { nid, entries: listing });
            assert(queue@ == q0.subrange(1, q0.len() as int) + listing_children(lv));
            steps = steps + 1;
            assert(walk_state(img, sb, root, steps) == walk_next(img, sb, st0));
        }
    }
    assert forall|i: int, child: u64|
        0 <= i < out@.len() && is_child(listing_view((#[trigger] out@[i]).entries), child)
            && node_result(img, sb, child) is Some implies #[trigger] visit_nids(out@).contains(
        child,
    ) by {
        assert(visited@.contains(child));
    }
    out
}

} // verus!
