//! The union of one writable upper layer over read-only lower layers: name
//! resolution, copy-up and the `rename2` planner.
use vstd::prelude::*;
use vstd::string::StringSliceAdditionalSpecFns;

use crate::flags::{
    flags_valid, has_bit, validate_flags, EEXIST, EINVAL, EISDIR, ENOENT, ENOTDIR, ENOTEMPTY,
    RENAME_EXCHANGE, RENAME_NOREPLACE, RENAME_WHITEOUT,
};
use crate::name::{check_name, name_error};
use crate::layer::{key_of, names_of, raw_rename_spec, Layer, LayerView};
use crate::node::{is_dir_spec, is_whiteout_spec, whiteout_view, Node, NodeView};

verus! {

/// How a position of the union resolves, as a mathematical value.
pub ghost enum ResolvedView {
    NotPresent,
    WhitedOut,
    /// Found in layer `layer` (0 is the upper layer).
    Present { layer: int, node: NodeView },
}

/// How a position of the union resolves.
pub enum Resolved {
    /// No layer holds the name.
    NotPresent,
    /// The upper layer holds a whiteout marker for the name.
    WhitedOut,
    /// The name is held by layer `.0` (0 is the upper layer).
    Present(usize, Node),
}

impl View for Resolved {
    type V = ResolvedView;

    open spec fn view(&self) -> ResolvedView {
        match self {
            Resolved::NotPresent => ResolvedView::NotPresent,
            Resolved::WhitedOut => ResolvedView::WhitedOut,
            Resolved::Present(l, n) => ResolvedView::Present { layer: *l as int, node: n@ },
        }
    }
}

/// The mathematical value of an [`Overlay`].
pub ghost struct OverlayView {
    pub upper: LayerView,
    pub lowers: Seq<LayerView>,
}

/// An overlay union: `upper` is layer 0, `lowers[j]` is layer `j + 1`.
pub struct Overlay {
    pub upper: Layer,
    pub lowers: Vec<Layer>,
}

impl View for Overlay {
    type V = OverlayView;

    open spec fn view(&self) -> OverlayView {
        OverlayView { upper: self.upper@, lowers: self.lowers@.map_values(|l: Layer| l@) }
    }
}

/// `j` is the first lower layer that holds position `k`.
pub open spec fn is_first_lower(ls: Seq<LayerView>, k: (u64, Seq<char>), j: int) -> bool {
    &&& 0 <= j < ls.len()
    &&& ls[j].names.contains_key(k)
    &&& forall|m: int| 0 <= m < j ==> !(#[trigger] ls[m].names.contains_key(k))
}

/// Some lower layer holds position `k`.
pub open spec fn lower_has(ls: Seq<LayerView>, k: (u64, Seq<char>)) -> bool {
    exists|j: int| 0 <= j < ls.len() && #[trigger] ls[j].names.contains_key(k)
}

/// Resolution of `(parent, name)`: the upper layer first, where a whiteout
/// shadows every lower layer; then, unless `parent` is opaque, the lower
/// layers in order, the first hit winning.
pub open spec fn resolve(v: OverlayView, parent: u64, name: Seq<char>) -> ResolvedView {
    let k = (parent, name);
    if v.upper.names.contains_key(k) {
        if is_whiteout_spec(v.upper.names[k]) {
            ResolvedView::WhitedOut
        } else {
            ResolvedView::Present { layer: 0, node: v.upper.names[k] }
        }
    } else if v.upper.opaque.contains(parent) {
        ResolvedView::NotPresent
    } else if exists|j: int| is_first_lower(v.lowers, k, j) {
        let j = choose|j: int| is_first_lower(v.lowers, k, j);
        ResolvedView::Present { layer: j + 1, node: v.lowers[j].names[k] }
    } else {
        ResolvedView::NotPresent
    }
}

/// Directory `dir` shows at least one entry in the union.
pub open spec fn union_has_children(v: OverlayView, dir: u64) -> bool {
    exists|n: Seq<char>| #[trigger] resolve(v, dir, n) is Present
}

/// The node a resolution found, if it found one.
pub open spec fn found_node(r: ResolvedView) -> NodeView {
    match r {
        ResolvedView::Present { node, .. } => node,
        _ => whiteout_view(),
    }
}

/// The upper layer's names once position `k`, resolved as `r`, is held by
/// the upper layer (copy-up): a lower-layer node is copied to `k`.
pub open spec fn copy_up_spec(
    m: Map<(u64, Seq<char>), NodeView>,
    k: (u64, Seq<char>),
    r: ResolvedView,
) -> Map<(u64, Seq<char>), NodeView> {
    match r {
        ResolvedView::Present { layer, node } => if layer != 0 {
            m.insert(k, node)
        } else {
            m
        },
        _ => m,
    }
}

/// A moved directory is marked opaque so that no lower-layer children show
/// through it.
pub open spec fn mark_dir(o: Set<u64>, n: NodeView) -> Set<u64> {
    if is_dir_spec(n) {
        o.insert(n.ino)
    } else {
        o
    }
}

/// The union with the upper layer replaced.
pub open spec fn with_upper(v: OverlayView, names: Map<(u64, Seq<char>), NodeView>, opaque: Set<u64>) -> OverlayView {
    OverlayView { upper: LayerView { names, opaque }, lowers: v.lowers }
}

/// The outcome of `rename2(parent, name -> new_parent, new_name, flags)` on
/// the union `v`: the result and the union afterwards.
pub open spec fn rename2_spec(
    v: OverlayView,
    parent: u64,
    name: Seq<char>,
    new_parent: u64,
    new_name: Seq<char>,
    flags: u32,
) -> (Result<(), i32>, OverlayView) {
    let src = (parent, name);
    let dst = (new_parent, new_name);
    let rs = resolve(v, parent, name);
    let rd = resolve(v, new_parent, new_name);
    let ns = found_node(rs);
    let nd = found_node(rd);
    if !flags_valid(flags) {
        (Err(EINVAL), v)
    } else if !(rs is Present) {
        (Err(ENOENT), v)
    } else if src == dst {
        (Ok(()), v)
    } else if has_bit(flags, RENAME_EXCHANGE) {
        if !(rd is Present) {
            (Err(ENOENT), v)
        } else {
            // both sides copied up, then swapped in the upper layer
            let u1 = copy_up_spec(copy_up_spec(v.upper.names, src, rs), dst, rd);
            let u2 = raw_rename_spec(u1, src, dst, flags).1;
            (Ok(()), with_upper(v, u2, mark_dir(mark_dir(v.upper.opaque, ns), nd)))
        }
    } else if rd is Present && has_bit(flags, RENAME_NOREPLACE) {
        (Err(EEXIST), v)
    } else if rd is Present && is_dir_spec(ns) && !is_dir_spec(nd) {
        (Err(ENOTDIR), v)
    } else if rd is Present && !is_dir_spec(ns) && is_dir_spec(nd) {
        (Err(EISDIR), v)
    } else if rd is Present && is_dir_spec(nd) && union_has_children(v, nd.ino) {
        (Err(ENOTEMPTY), v)
    } else {
        // a whiteout at the destination is no existence: NOREPLACE is dropped
        let f = if rd is WhitedOut {
            flags & !RENAME_NOREPLACE
        } else {
            flags
        };
        let u1 = copy_up_spec(v.upper.names, src, rs);
        let (r, u2) = raw_rename_spec(u1, src, dst, f);
        if r is Err {
            // the copied-up source stays: it is valid union state
            (r, with_upper(v, u1, v.upper.opaque))
        } else if !has_bit(flags, RENAME_WHITEOUT) && lower_has(v.lowers, src) && !u2.contains_key(src) {
            // the vacated name would uncover a lower-layer entry
            (r, with_upper(v, u2.insert(src, whiteout_view()), mark_dir(v.upper.opaque, ns)))
        } else {
            (r, with_upper(v, u2, mark_dir(v.upper.opaque, ns)))
        }
    }
}

/// [`rename2_spec`] behind the checks on the two names (given as bytes and
/// as characters), which come right after the check on the flags.
pub open spec fn rename2_outcome(
    v: OverlayView,
    parent: u64,
    name_bytes: Seq<u8>,
    name: Seq<char>,
    new_parent: u64,
    new_name_bytes: Seq<u8>,
    new_name: Seq<char>,
    flags: u32,
) -> (Result<(), i32>, OverlayView) {
    if flags_valid(flags) && name_error(name_bytes) is Some {
        (Err(name_error(name_bytes)->0), v)
    } else if flags_valid(flags) && name_error(new_name_bytes) is Some {
        (Err(name_error(new_name_bytes)->0), v)
    } else {
        rename2_spec(v, parent, name, new_parent, new_name, flags)
    }
}

proof fn lemma_first_unique(ls: Seq<LayerView>, k: (u64, Seq<char>), a: int, b: int)
    requires
        is_first_lower(ls, k, a),
        is_first_lower(ls, k, b),
    ensures
        a == b,
{
    if a < b {
        assert(!ls[a].names.contains_key(k));
    } else if b < a {
        assert(!ls[b].names.contains_key(k));
    }
}

proof fn lemma_first_exists(ls: Seq<LayerView>, k: (u64, Seq<char>), j: int)
    requires
        0 <= j < ls.len(),
        ls[j].names.contains_key(k),
    ensures
        exists|f: int| is_first_lower(ls, k, f),
    decreases j,
{
    if forall|m: int| 0 <= m < j ==> !(#[trigger] ls[m].names.contains_key(k)) {
        assert(is_first_lower(ls, k, j));
    } else {
        let m = choose|m: int| 0 <= m < j && #[trigger] ls[m].names.contains_key(k);
        lemma_first_exists(ls, k, m);
    }
}

/// Some lower layer holds `k` iff there is a first one that does.
pub proof fn lemma_lower_has_first(ls: Seq<LayerView>, k: (u64, Seq<char>))
    ensures
        lower_has(ls, k) <==> exists|f: int| is_first_lower(ls, k, f),
{
    if lower_has(ls, k) {
        let j = choose|j: int| 0 <= j < ls.len() && #[trigger] ls[j].names.contains_key(k);
        lemma_first_exists(ls, k, j);
    }
    if exists|f: int| is_first_lower(ls, k, f) {
        let f = choose|f: int| is_first_lower(ls, k, f);
        assert(ls[f].names.contains_key(k));
    }
}

impl Overlay {
    /// An empty upper layer over `lowers`.
    pub fn new(lowers: Vec<Layer>) -> (r: Overlay)
        ensures
            r@.upper.names == Map::<(u64, Seq<char>), NodeView>::empty(),
            r@.upper.opaque == Set::<u64>::empty(),
            r@.lowers == lowers@.map_values(|l: Layer| l@),
    {
        Overlay { upper: Layer::new(), lowers }
    }

    /// The upper layer holding `upper`, over `lowers`.
    pub fn from_layers(upper: Layer, lowers: Vec<Layer>) -> (r: Overlay)
        ensures
            r@.upper == upper@,
            r@.lowers == lowers@.map_values(|l: Layer| l@),
    {
        Overlay { upper, lowers }
    }

    /// Finds the first lower layer holding `(parent, name)`.
    fn first_lower(&self, parent: u64, name: &String) -> (r: Option<(usize, Node)>)
        ensures
            match r {
                Some((j, n)) => j < self.lowers.len() && is_first_lower(self@.lowers, (parent, name@), j as int)
                    && n@ == self@.lowers[j as int].names[(parent, name@)],
                None => !lower_has(self@.lowers, (parent, name@)),
            },
    {
        let mut j: usize = 0;
        while j < self.lowers.len()
            invariant
                j <= self.lowers@.len(),
                forall|m: int| 0 <= m < j ==> !(#[trigger] self@.lowers[m].names.contains_key((parent, name@))),
            decreases self.lowers@.len() - j,
        {
            match self.lowers[j].get(parent, name) {
                Some(n) => {
                    return Some((j, n));
                },
                None => {},
            }
            j = j + 1;
        }
        None
    }

    /// Resolves `(parent, name)` in the union.
    pub fn lookup(&self, parent: u64, name: &String) -> (r: Resolved)
        ensures
            r@ == resolve(self@, parent, name@),
            r is WhitedOut ==> self@.upper.names.contains_key((parent, name@))
                && is_whiteout_spec(self@.upper.names[(parent, name@)]),
    {
        match self.upper.get(parent, name) {
            Some(n) => {
                if n.is_whiteout() {
                    return Resolved::WhitedOut;
                }
                return Resolved::Present(0, n);
            },
            None => {},
        }
        if self.upper.is_opaque(parent) {
            return Resolved::NotPresent;
        }
        match self.first_lower(parent, name) {
            Some((j, n)) => {
                proof {
                    let k = (parent, name@);
                    assert(exists|f: int| is_first_lower(self@.lowers, k, f));
                    let c = choose|f: int| is_first_lower(self@.lowers, k, f);
                    lemma_first_unique(self@.lowers, k, c, j as int);
                }
                Resolved::Present(j + 1, n)
            },
            None => {
                proof {
                    lemma_lower_has_first(self@.lowers, (parent, name@));
                }
                Resolved::NotPresent
            },
        }
    }

    /// True iff some lower layer holds `(parent, name)`.
    pub fn lower_has(&self, parent: u64, name: &String) -> (r: bool)
        ensures
            r == lower_has(self@.lowers, (parent, name@)),
    {
        match self.first_lower(parent, name) {
            Some(_) => true,
            None => false,
        }
    }

    /// True iff directory `dir` shows at least one entry in the union.
    pub fn union_has_children(&self, dir: u64) -> (r: bool)
        ensures
            r == union_has_children(self@, dir),
    {
        let ghost v = self@;
        let ue = &self.upper.entries;
        let mut i: usize = 0;
        while i < ue.len()
            invariant
                i <= ue@.len(),
                ue@ == self.upper.entries@,
                v == self@,
                forall|j: int| 0 <= j < i && (#[trigger] ue@[j]).parent == dir
                    ==> is_whiteout_spec(v.upper.names[key_of(ue@[j])]),
            decreases ue@.len() - i,
        {
            let e = &ue[i];
            if e.parent == dir {
                match self.upper.get(dir, &e.name) {
                    Some(n) => {
                        if !n.is_whiteout() {
                            assert(resolve(v, dir, e.name@) is Present);
                            return true;
                        }
                    },
                    None => {
                        proof {
                            crate::layer::lemma_key_present(ue@, i as int);
                        }
                        assert(false);
                    },
                }
            }
            i = i + 1;
        }
        assert forall|k: (u64, Seq<char>)| v.upper.names.contains_key(k) && k.0 == dir
            implies #[trigger] is_whiteout_spec(v.upper.names[k]) by {
            crate::layer::lemma_present_has_index(ue@, k);
            let j = choose|j: int| 0 <= j < ue@.len() && key_of(#[trigger] ue@[j]) == k;
            assert(ue@[j].parent == dir);
        }
        if self.upper.is_opaque(dir) {
            assert forall|n: Seq<char>| !(#[trigger] resolve(v, dir, n) is Present) by {
                if v.upper.names.contains_key((dir, n)) {
                    assert(is_whiteout_spec(v.upper.names[(dir, n)]));
                }
            }
            return false;
        }
        let mut j: usize = 0;
        while j < self.lowers.len()
            invariant
                j <= self.lowers@.len(),
                v == self@,
                !v.upper.opaque.contains(dir),
                forall|m: int, k: (u64, Seq<char>)| 0 <= m < j && k.0 == dir && #[trigger] v.lowers[m].names.contains_key(k)
                    ==> v.upper.names.contains_key(k),
            decreases self.lowers@.len() - j,
        {
            let le = &self.lowers[j].entries;
            assert(v.lowers[j as int] == self.lowers@[j as int]@);
            let mut i: usize = 0;
            while i < le.len()
                invariant
                    i <= le@.len(),
                    j < self.lowers@.len(),
                    v == self@,
                    !v.upper.opaque.contains(dir),
                    le@ == self.lowers@[j as int].entries@,
                    v.lowers[j as int].names == names_of(le@),
                    forall|m: int, k: (u64, Seq<char>)| 0 <= m < j && k.0 == dir && #[trigger] v.lowers[m].names.contains_key(k)
                        ==> v.upper.names.contains_key(k),
                    forall|x: int| 0 <= x < i && (#[trigger] le@[x]).parent == dir
                        ==> v.upper.names.contains_key(key_of(le@[x])),
                decreases le@.len() - i,
            {
                let e = &le[i];
                if e.parent == dir {
                    match self.upper.get(dir, &e.name) {
                        Some(_) => {},
                        None => {
                            proof {
                                let k = (dir, e.name@);
                                crate::layer::lemma_key_present(le@, i as int);
                                assert(key_of(le@[i as int]) == k);
                                assert(lower_has(v.lowers, k));
                                lemma_lower_has_first(v.lowers, k);
                                assert(resolve(v, dir, e.name@) is Present);
                            }
                            return true;
                        },
                    }
                }
                i = i + 1;
            }
            assert forall|m: int, k: (u64, Seq<char>)| 0 <= m < j + 1 && k.0 == dir && #[trigger] v.lowers[m].names.contains_key(k)
                implies v.upper.names.contains_key(k) by {
                if m == j {
                    crate::layer::lemma_present_has_index(le@, k);
                    let x = choose|x: int| 0 <= x < le@.len() && key_of(#[trigger] le@[x]) == k;
                    assert(le@[x].parent == dir);
                }
            }
            j = j + 1;
        }
        assert forall|n: Seq<char>| !(#[trigger] resolve(v, dir, n) is Present) by {
            let k = (dir, n);
            if v.upper.names.contains_key(k) {
                assert(is_whiteout_spec(v.upper.names[k]));
            } else if exists|f: int| is_first_lower(v.lowers, k, f) {
                let f = choose|f: int| is_first_lower(v.lowers, k, f);
                assert(v.lowers[f].names.contains_key(k));
            }
        }
        false
    }

    /// Copy-up: makes the upper layer hold the entry that `(parent, name)`
    /// resolves to. A no-op when the upper layer already holds it;
    /// `Err(ENOENT)` when the name is not present in the union.
    pub fn copy_up(&mut self, parent: u64, name: &String) -> (r: Result<(), i32>)
        ensures
            r is Ok <==> resolve(old(self)@, parent, name@) is Present,
            r is Err ==> r == Err::<(), i32>(ENOENT) && final(self)@ == old(self)@,
            r is Ok ==> final(self)@ == with_upper(
                old(self)@,
                copy_up_spec(old(self)@.upper.names, (parent, name@), resolve(old(self)@, parent, name@)),
                old(self)@.upper.opaque,
            ),
            r is Ok && !is_whiteout_spec(found_node(resolve(old(self)@, parent, name@)))
                ==> resolve(final(self)@, parent, name@) == (ResolvedView::Present {
                layer: 0,
                node: found_node(resolve(old(self)@, parent, name@)),
            }),
    {
        match self.lookup(parent, name) {
            Resolved::Present(l, n) => {
                if l != 0 {
                    self.upper.insert_name(parent, name.clone(), n);
                }
                assert(self@.lowers =~= old(self)@.lowers);
                Ok(())
            },
            _ => Err(ENOENT),
        }
    }

    /// Renames `(parent, name)` to `(new_parent, new_name)` in the union,
    /// with the modifier bits NOREPLACE, EXCHANGE and WHITEOUT. The flags
    /// are checked before anything else, then each name (see
    /// [`name_error`]); the physical change happens in the upper layer
    /// only, after the entries involved are copied up. Without WHITEOUT or
    /// EXCHANGE, a whiteout is left at the vacated source position exactly
    /// when a lower layer holds that name. In this in-memory union, creating
    /// that whiteout cannot fail, so a successful layer rename always comes
    /// with it.
    pub fn rename2(&mut self, parent: u64, name: &str, new_parent: u64, new_name: &str, flags: u32) -> (r: Result<(), i32>)
        ensures
            (r, final(self)@) == rename2_outcome(
                old(self)@,
                parent,
                name.spec_bytes(),
                name@,
                new_parent,
                new_name.spec_bytes(),
                new_name@,
                flags,
            ),
    {
        if validate_flags(flags).is_err() {
            return Err(EINVAL);
        }
        match check_name(name) {
            Err(e) => return Err(e),
            Ok(()) => {},
        }
        match check_name(new_name) {
            Err(e) => return Err(e),
            Ok(()) => {},
        }
        let name = name.to_owned();
        let new_name = new_name.to_owned();
        let ns = match self.lookup(parent, &name) {
            Resolved::Present(_, n) => n,
            _ => return Err(ENOENT),
        };
        if parent == new_parent && name.eq(&new_name) {
            return Ok(());
        }
        let rd = self.lookup(new_parent, &new_name);
        if flags & RENAME_EXCHANGE != 0 {
            match rd {
                Resolved::Present(_, nd) => {
                    let _ = self.copy_up(parent, &name);
                    let _ = self.copy_up(new_parent, &new_name);
                    let _ = self.upper.raw_rename(parent, &name, new_parent, &new_name, flags);
                    if ns.is_dir() {
                        self.upper.mark_opaque(ns.ino);
                    }
                    if nd.is_dir() {
                        self.upper.mark_opaque(nd.ino);
                    }
                    return Ok(());
                },
                _ => return Err(ENOENT),
            }
        }
        let dst_whited_out = match &rd {
            Resolved::WhitedOut => true,
            _ => false,
        };
        match &rd {
            Resolved::Present(_, nd) => {
                if flags & RENAME_NOREPLACE != 0 {
                    return Err(EEXIST);
                }
                if ns.is_dir() && !nd.is_dir() {
                    return Err(ENOTDIR);
                }
                if !ns.is_dir() && nd.is_dir() {
                    return Err(EISDIR);
                }
                if nd.is_dir() && self.union_has_children(nd.ino) {
                    return Err(ENOTEMPTY);
                }
            },
            _ => {},
        }
        let f = if dst_whited_out {
            flags & !RENAME_NOREPLACE
        } else {
            flags
        };
        let _ = self.copy_up(parent, &name);
        let r = self.upper.raw_rename(parent, &name, new_parent, &new_name, f);
        if r.is_err() {
            return r;
        }
        if flags & RENAME_WHITEOUT == 0 && self.lower_has(parent, &name) {
            // a name the layer rename left in place keeps its entry: the
            // marker is not made, and the rename still succeeds
            let _ = self.upper.create_whiteout(parent, &name);
        }
        if ns.is_dir() {
            self.upper.mark_opaque(ns.ino);
        }
        r
    }
}

} // verus!
