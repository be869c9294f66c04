//! Laws of the union and of its rename2, stated over the models and proved.
use vstd::prelude::*;

use crate::flags::{
    flags_valid, has_bit, lemma_drop_noreplace, lemma_plain_flags, RENAME_EXCHANGE, RENAME_WHITEOUT,
};
use crate::layer::{links, nlink, raw_rename_spec};
use crate::node::{is_dir_spec, is_whiteout_spec, NO_INODE};
use crate::overlay::{
    found_node, is_first_lower, lower_has, rename2_spec, resolve, Overlay, OverlayView, ResolvedView,
};

verus! {

/// A name that resolves as whited out is held by a whiteout marker in the
/// upper layer.
pub proof fn lemma_whited_out_has_marker(v: OverlayView, parent: u64, name: Seq<char>)
    requires
        resolve(v, parent, name) is WhitedOut,
    ensures
        v.upper.names.contains_key((parent, name)),
        is_whiteout_spec(v.upper.names[(parent, name)]),
{
}

/// A successful rename2 with no flags from a name that no lower layer holds
/// leaves no whiteout at the old source position.
pub proof fn lemma_plain_rename_no_stray_whiteout(
    v: OverlayView,
    parent: u64,
    name: Seq<char>,
    new_parent: u64,
    new_name: Seq<char>,
)
    requires
        rename2_spec(v, parent, name, new_parent, new_name, 0).0 is Ok,
        !lower_has(v.lowers, (parent, name)),
    ensures
        ({
            let after = rename2_spec(v, parent, name, new_parent, new_name, 0).1;
            !(after.upper.names.contains_key((parent, name)) && is_whiteout_spec(after.upper.names[(parent, name)]))
        }),
{
    lemma_plain_flags();
    let src = (parent, name);
    if exists|j: int| is_first_lower(v.lowers, src, j) {
        let j = choose|j: int| is_first_lower(v.lowers, src, j);
        assert(v.lowers[j].names.contains_key(src));
    }
    assert(v.upper.names.contains_key(src) && !is_whiteout_spec(v.upper.names[src]));
}

/// A successful rename2 with WHITEOUT between two positions that are not
/// names of one inode leaves a whiteout at the old source position, and the
/// destination holds the moved entry.
pub proof fn lemma_whiteout_flag_leaves_marker(
    v: OverlayView,
    parent: u64,
    name: Seq<char>,
    new_parent: u64,
    new_name: Seq<char>,
    flags: u32,
)
    requires
        has_bit(flags, RENAME_WHITEOUT),
        rename2_spec(v, parent, name, new_parent, new_name, flags).0 is Ok,
        (parent, name) != (new_parent, new_name),
        !(v.upper.names.contains_key((new_parent, new_name))
            && found_node(resolve(v, parent, name)).ino != NO_INODE
            && v.upper.names[(new_parent, new_name)].ino == found_node(resolve(v, parent, name)).ino),
    ensures
        ({
            let after = rename2_spec(v, parent, name, new_parent, new_name, flags).1;
            &&& after.upper.names.contains_key((parent, name))
            &&& is_whiteout_spec(after.upper.names[(parent, name)])
            &&& resolve(after, parent, name) is WhitedOut
            &&& after.upper.names.contains_key((new_parent, new_name))
            &&& after.upper.names[(new_parent, new_name)] == found_node(resolve(v, parent, name))
            &&& after.lowers == v.lowers
        }),
{
    lemma_drop_noreplace(flags);
}

/// A successful EXCHANGE between two positions leaves both occupied in the
/// upper layer with their entries swapped.
pub proof fn lemma_exchange_swaps(
    v: OverlayView,
    parent: u64,
    name: Seq<char>,
    new_parent: u64,
    new_name: Seq<char>,
)
    requires
        rename2_spec(v, parent, name, new_parent, new_name, RENAME_EXCHANGE).0 is Ok,
        (parent, name) != (new_parent, new_name),
    ensures
        ({
            let after = rename2_spec(v, parent, name, new_parent, new_name, RENAME_EXCHANGE).1;
            let ns = found_node(resolve(v, parent, name));
            let nd = found_node(resolve(v, new_parent, new_name));
            &&& resolve(v, parent, name) is Present
            &&& resolve(v, new_parent, new_name) is Present
            &&& after.upper.names.contains_key((parent, name))
            &&& after.upper.names.contains_key((new_parent, new_name))
            &&& after.upper.names[(parent, name)] == nd
            &&& after.upper.names[(new_parent, new_name)] == ns
            &&& !is_whiteout_spec(nd) ==> resolve(after, parent, name) == (ResolvedView::Present { layer: 0, node: nd })
            &&& !is_whiteout_spec(ns) ==> resolve(after, new_parent, new_name) == (ResolvedView::Present { layer: 0, node: ns })
        }),
{
    lemma_plain_flags();
}

/// Renaming a name onto itself, with any acceptable flags, changes nothing.
pub proof fn lemma_same_path_noop(v: OverlayView, parent: u64, name: Seq<char>, flags: u32)
    requires
        flags_valid(flags),
    ensures
        rename2_spec(v, parent, name, parent, name, flags).1 == v,
        resolve(v, parent, name) is Present ==> rename2_spec(v, parent, name, parent, name, flags).0 is Ok,
{
}

/// Renaming one name of an upper-layer inode, without EXCHANGE, does not
/// change that inode's link count.
pub proof fn lemma_rename_keeps_nlink(
    o: Overlay,
    parent: u64,
    name: Seq<char>,
    new_parent: u64,
    new_name: Seq<char>,
    flags: u32,
)
    requires
        !has_bit(flags, RENAME_EXCHANGE),
        resolve(o@, parent, name) is Present,
        resolve(o@, parent, name)->layer == 0,
        found_node(resolve(o@, parent, name)).ino != NO_INODE,
        rename2_spec(o@, parent, name, new_parent, new_name, flags).0 is Ok,
    ensures
        ({
            let ino = found_node(resolve(o@, parent, name)).ino;
            let after = rename2_spec(o@, parent, name, new_parent, new_name, flags).1;
            nlink(after.upper.names, ino) == nlink(o@.upper.names, ino)
        }),
{
    let v = o@;
    crate::layer::lemma_names_finite(o.upper.entries@);
    lemma_drop_noreplace(flags);
    let m = v.upper.names;
    let src = (parent, name);
    let dst = (new_parent, new_name);
    let ns = found_node(resolve(v, parent, name));
    let ino = ns.ino;
    assert(m.contains_key(src) && m[src] == ns);
    let after = rename2_spec(v, parent, name, new_parent, new_name, flags).1.upper.names;
    let s = links(m, ino);
    vstd::set_lib::lemma_len_subset(s, m.dom());
    if src != dst && !(m.contains_key(dst) && m[dst].ino == ino) {
        let rd = resolve(v, new_parent, new_name);
        let f = if rd is WhitedOut {
            flags & !crate::flags::RENAME_NOREPLACE
        } else {
            flags
        };
        assert(raw_rename_spec(m, src, dst, f).0 is Ok);
        assert(links(after, ino) =~= s.remove(src).insert(dst));
        assert(s.contains(src));
        assert(!s.remove(src).contains(dst));
    }
}

/// Renaming a non-directory from `a` to a free name `b` and back again, both
/// with no flags, restores the union: every name resolves as before, up to
/// whiteouts left along the way (a whiteout and an absent name both show
/// nothing) and the layer that holds the entry.
pub proof fn lemma_rename_back_restores(v: OverlayView, pa: u64, na: Seq<char>, pb: u64, nb: Seq<char>)
    requires
        (pa, na) != (pb, nb),
        !(resolve(v, pb, nb) is Present),
        !is_dir_spec(found_node(resolve(v, pa, na))),
        rename2_spec(v, pa, na, pb, nb, 0).0 is Ok,
        rename2_spec(rename2_spec(v, pa, na, pb, nb, 0).1, pb, nb, pa, na, 0).0 is Ok,
    ensures
        ({
            let back = rename2_spec(rename2_spec(v, pa, na, pb, nb, 0).1, pb, nb, pa, na, 0).1;
            &&& back.lowers == v.lowers
            &&& back.upper.opaque == v.upper.opaque
            &&& forall|p: u64, n: Seq<char>| #[trigger] resolve(back, p, n) is Present <==> resolve(v, p, n) is Present
            &&& forall|p: u64, n: Seq<char>| #[trigger] resolve(v, p, n) is Present
                ==> found_node(resolve(back, p, n)) == found_node(resolve(v, p, n))
        }),
{
    lemma_plain_flags();
    let a = (pa, na);
    let b = (pb, nb);
    let ns = found_node(resolve(v, pa, na));
    let mid = rename2_spec(v, pa, na, pb, nb, 0).1;
    let back = rename2_spec(mid, pb, nb, pa, na, 0).1;
    assert(mid.lowers == v.lowers);
    assert(mid.upper.opaque == v.upper.opaque);
    assert(mid.upper.names.contains_key(b) && mid.upper.names[b] == ns);
    assert(!is_whiteout_spec(ns));
    assert(forall|k: (u64, Seq<char>)| k != a && k != b ==> (#[trigger] mid.upper.names.contains_key(k)) == v.upper.names.contains_key(k));
    assert(forall|k: (u64, Seq<char>)| k != a && k != b && v.upper.names.contains_key(k) ==> #[trigger] mid.upper.names[k] == v.upper.names[k]);
    assert(mid.upper.names.contains_key(a) ==> is_whiteout_spec(mid.upper.names[a]));
    assert(back.lowers == v.lowers);
    assert(back.upper.opaque == v.upper.opaque);
    assert(back.upper.names.contains_key(a) && back.upper.names[a] == ns);
    assert(back.upper.names.contains_key(b) ==> is_whiteout_spec(back.upper.names[b]));
    assert(!back.upper.names.contains_key(b) ==> !lower_has(v.lowers, b));
    assert(forall|k: (u64, Seq<char>)| k != a && k != b ==> (#[trigger] back.upper.names.contains_key(k)) == v.upper.names.contains_key(k));
    assert(forall|k: (u64, Seq<char>)| k != a && k != b && v.upper.names.contains_key(k) ==> #[trigger] back.upper.names[k] == v.upper.names[k]);
    assert forall|p: u64, n: Seq<char>| #[trigger] resolve(back, p, n) is Present <==> resolve(v, p, n) is Present by {
        if (p, n) == b && !back.upper.names.contains_key(b) {
            if exists|j: int| is_first_lower(back.lowers, b, j) {
                let j = choose|j: int| is_first_lower(back.lowers, b, j);
                assert(v.lowers[j].names.contains_key(b));
            }
        }
    }
    assert forall|p: u64, n: Seq<char>| #[trigger] resolve(v, p, n) is Present
        implies found_node(resolve(back, p, n)) == found_node(resolve(v, p, n)) by {
    }
}

} // verus!
