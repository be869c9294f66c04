//! One layer of the union: a set of named entries, each under a parent
//! directory id, and the rename primitive the host offers on it.
use vstd::prelude::*;

use crate::flags::{
    validate_flags, flags_valid, has_bit, EEXIST, EINVAL, EISDIR, ENOENT, ENOTDIR, ENOTEMPTY, RENAME_EXCHANGE,
    RENAME_NOREPLACE, RENAME_WHITEOUT,
};
use crate::node::{is_dir_spec, is_whiteout_spec, whiteout_view, Node, NodeView, NO_INODE};

verus! {

/// One stored directory entry: `name` inside directory `parent`.
pub struct Entry {
    pub parent: u64,
    pub name: String,
    pub node: Node,
}

/// A position in the namespace: parent directory id and name.
pub open spec fn key_of(e: Entry) -> (u64, Seq<char>) {
    (e.parent, e.name@)
}

/// What a sequence of entries stores; a later entry for a position replaces
/// an earlier one.
pub open spec fn names_of(s: Seq<Entry>) -> Map<(u64, Seq<char>), NodeView>
    decreases s.len(),
{
    if s.len() == 0 {
        Map::empty()
    } else {
        names_of(s.drop_last()).insert(key_of(s.last()), s.last().node@)
    }
}

/// The mathematical value of a [`Layer`]: what each position holds, and the
/// directories marked opaque.
pub ghost struct LayerView {
    pub names: Map<(u64, Seq<char>), NodeView>,
    pub opaque: Set<u64>,
}

/// A single directory tree of the union.
pub struct Layer {
    pub entries: Vec<Entry>,
    /// Ids of directories whose lower-layer contents are masked.
    pub opaque: Vec<u64>,
}

impl View for Layer {
    type V = LayerView;

    open spec fn view(&self) -> LayerView {
        LayerView { names: names_of(self.entries@), opaque: self.opaque@.to_set() }
    }
}

/// True iff some position of `m` lies inside directory `dir`.
pub open spec fn has_children(m: Map<(u64, Seq<char>), NodeView>, dir: u64) -> bool {
    exists|k: (u64, Seq<char>)| #[trigger] m.contains_key(k) && k.0 == dir
}

/// The positions holding inode `ino`, whiteouts aside.
pub open spec fn links(m: Map<(u64, Seq<char>), NodeView>, ino: u64) -> Set<(u64, Seq<char>)> {
    Set::new(|k: (u64, Seq<char>)| m.contains_key(k) && m[k].ino == ino && !is_whiteout_spec(m[k]))
}

/// Link count of inode `ino`.
pub open spec fn nlink(m: Map<(u64, Seq<char>), NodeView>, ino: u64) -> nat {
    links(m, ino).len()
}

/// The host's rename on one layer: the result and what the layer then stores.
pub open spec fn raw_rename_spec(
    m: Map<(u64, Seq<char>), NodeView>,
    src: (u64, Seq<char>),
    dst: (u64, Seq<char>),
    flags: u32,
) -> (Result<(), i32>, Map<(u64, Seq<char>), NodeView>) {
    if !flags_valid(flags) {
        (Err(EINVAL), m)
    } else if !m.contains_key(src) {
        (Err(ENOENT), m)
    } else if src == dst {
        (Ok(()), m)
    } else if has_bit(flags, RENAME_EXCHANGE) {
        if !m.contains_key(dst) {
            (Err(ENOENT), m)
        } else {
            (Ok(()), m.insert(src, m[dst]).insert(dst, m[src]))
        }
    } else if m.contains_key(dst) && has_bit(flags, RENAME_NOREPLACE) {
        (Err(EEXIST), m)
    } else if m.contains_key(dst) && m[src].ino != NO_INODE && m[dst].ino == m[src].ino {
        // two names of one inode: the host does nothing
        (Ok(()), m)
    } else if m.contains_key(dst) && is_dir_spec(m[src]) && !is_dir_spec(m[dst]) {
        (Err(ENOTDIR), m)
    } else if m.contains_key(dst) && !is_dir_spec(m[src]) && is_dir_spec(m[dst]) {
        (Err(EISDIR), m)
    } else if m.contains_key(dst) && is_dir_spec(m[dst]) && has_children(m, m[dst].ino) {
        (Err(ENOTEMPTY), m)
    } else {
        let moved = m.remove(src).insert(dst, m[src]);
        if has_bit(flags, RENAME_WHITEOUT) {
            (Ok(()), moved.insert(src, whiteout_view()))
        } else {
            (Ok(()), moved)
        }
    }
}

proof fn lemma_last_match(s: Seq<Entry>, k: (u64, Seq<char>), i: int)
    requires
        0 <= i < s.len(),
        key_of(s[i]) == k,
        forall|j: int| i < j < s.len() ==> key_of(#[trigger] s[j]) != k,
    ensures
        names_of(s).contains_key(k),
        names_of(s)[k] == s[i].node@,
    decreases s.len(),
{
    if i < s.len() - 1 {
        let t = s.drop_last();
        assert forall|j: int| i < j < t.len() implies key_of(#[trigger] t[j]) != k by {
            assert(t[j] == s[j]);
        }
        lemma_last_match(t, k, i);
    }
}

proof fn lemma_no_match(s: Seq<Entry>, k: (u64, Seq<char>))
    requires
        forall|j: int| 0 <= j < s.len() ==> key_of(#[trigger] s[j]) != k,
    ensures
        !names_of(s).contains_key(k),
    decreases s.len(),
{
    if s.len() > 0 {
        let t = s.drop_last();
        assert forall|j: int| 0 <= j < t.len() implies key_of(#[trigger] t[j]) != k by {
            assert(t[j] == s[j]);
        }
        lemma_no_match(t, k);
        assert(key_of(s[s.len() - 1]) != k);
    }
}

pub proof fn lemma_key_present(s: Seq<Entry>, i: int)
    requires
        0 <= i < s.len(),
    ensures
        names_of(s).contains_key(key_of(s[i])),
    decreases s.len(),
{
    if i < s.len() - 1 {
        let t = s.drop_last();
        assert(t[i] == s[i]);
        lemma_key_present(t, i);
    }
}

pub proof fn lemma_present_has_index(s: Seq<Entry>, k: (u64, Seq<char>))
    requires
        names_of(s).contains_key(k),
    ensures
        exists|i: int| 0 <= i < s.len() && key_of(#[trigger] s[i]) == k,
    decreases s.len(),
{
    if key_of(s.last()) != k {
        let t = s.drop_last();
        lemma_present_has_index(t, k);
        let i = choose|i: int| 0 <= i < t.len() && key_of(#[trigger] t[i]) == k;
        assert(s[i] == t[i]);
    }
}

/// What a layer stores is finite.
pub proof fn lemma_names_finite(s: Seq<Entry>)
    ensures
        names_of(s).dom().finite(),
    decreases s.len(),
{
    if s.len() > 0 {
        lemma_names_finite(s.drop_last());
    }
}

impl Layer {
    /// An empty layer.
    pub fn new() -> (r: Layer)
        ensures
            r@.names == Map::<(u64, Seq<char>), NodeView>::empty(),
            r@.opaque == Set::<u64>::empty(),
    {
        let r = Layer { entries: Vec::new(), opaque: Vec::new() };
        assert(r@.opaque =~= Set::<u64>::empty());
        r
    }

    /// Index of the entry that decides what `(parent, name)` holds.
    fn find(&self, parent: u64, name: &String) -> (r: Option<usize>)
        ensures
            match r {
                Some(i) => i < self.entries@.len() && key_of(self.entries@[i as int]) == (parent, name@)
                    && self@.names.contains_key((parent, name@))
                    && self@.names[(parent, name@)] == self.entries@[i as int].node@,
                None => !self@.names.contains_key((parent, name@)),
            },
    {
        let mut i: usize = self.entries.len();
        while i > 0
            invariant
                i <= self.entries@.len(),
                forall|j: int| i <= j < self.entries@.len() ==> key_of(#[trigger] self.entries@[j]) != (parent, name@),
            decreases i,
        {
            let e = &self.entries[i - 1];
            if e.parent == parent && e.name.eq(name) {
                proof {
                    lemma_last_match(self.entries@, (parent, name@), i - 1);
                }
                return Some(i - 1);
            }
            i = i - 1;
        }
        proof {
            lemma_no_match(self.entries@, (parent, name@));
        }
        None
    }

    /// What `(parent, name)` holds, if anything.
    pub fn get(&self, parent: u64, name: &String) -> (r: Option<Node>)
        ensures
            match r {
                Some(n) => self@.names.contains_key((parent, name@)) && n@ == self@.names[(parent, name@)],
                None => !self@.names.contains_key((parent, name@)),
            },
    {
        match self.find(parent, name) {
            Some(i) => Some(self.entries[i].node.copy()),
            None => None,
        }
    }

    /// Drops whatever `(parent, name)` holds.
    pub fn remove_name(&mut self, parent: u64, name: &String)
        ensures
            final(self)@.names == old(self)@.names.remove((parent, name@)),
            final(self)@.opaque == old(self)@.opaque,
    {
        let ghost s = self.entries@;
        let mut out: Vec<Entry> = Vec::new();
        let n = self.entries.len();
        let mut i: usize = 0;
        while i < n
            invariant
                n == s.len(),
                i <= n,
                self.entries@ == s,
                s == old(self).entries@,
                names_of(out@) == names_of(s.take(i as int)).remove((parent, name@)),
                self.opaque == old(self).opaque,
            decreases n - i,
        {
            let e = &self.entries[i];
            assert(s.take(i + 1).drop_last() =~= s.take(i as int));
            assert(s.take(i + 1).last() == *e);
            assert(names_of(s.take(i + 1)) == names_of(s.take(i as int)).insert(key_of(*e), e.node@));
            if e.parent == parent && e.name.eq(name) {
                assert(key_of(*e) == (parent, name@));
                assert(names_of(s.take(i + 1)).remove((parent, name@)) =~= names_of(s.take(i as int)).remove((parent, name@)));
            } else {
                assert(key_of(*e) != (parent, name@));
                let ghost before = out@;
                let c = Entry { parent: e.parent, name: e.name.clone(), node: e.node.copy() };
                out.push(c);
                assert(out@.drop_last() =~= before);
                assert(key_of(c) == key_of(*e));
                assert(names_of(out@) == names_of(before).insert(key_of(c), c.node@));
                assert(names_of(out@) =~= names_of(s.take(i + 1)).remove((parent, name@)));
            }
            i = i + 1;
        }
        assert(s.take(n as int) =~= s);
        self.entries = out;
    }

    /// Makes `(parent, name)` hold `node`, replacing what it held.
    pub fn insert_name(&mut self, parent: u64, name: String, node: Node)
        ensures
            final(self)@.names == old(self)@.names.insert((parent, name@), node@),
            final(self)@.opaque == old(self)@.opaque,
    {
        self.remove_name(parent, &name);
        let ghost before = self.entries@;
        let ghost k = (parent, name@);
        self.entries.push(Entry { parent, name, node });
        assert(self.entries@.drop_last() =~= before);
        assert(self@.names =~= old(self)@.names.insert(k, node@));
    }

    /// Creates a whiteout marker at `(parent, name)`, as a character device
    /// 0/0 with mode 0o644; `Err(EEXIST)` when the position is taken.
    pub fn create_whiteout(&mut self, parent: u64, name: &String) -> (r: Result<(), i32>)
        ensures
            old(self)@.names.contains_key((parent, name@)) ==> r == Err::<(), i32>(EEXIST) && final(self)@ == old(self)@,
            !old(self)@.names.contains_key((parent, name@)) ==> r is Ok
                && final(self)@.names == old(self)@.names.insert((parent, name@), whiteout_view())
                && final(self)@.opaque == old(self)@.opaque,
    {
        if self.find(parent, name).is_some() {
            return Err(EEXIST);
        }
        self.insert_name(parent, name.clone(), Node::whiteout());
        Ok(())
    }

    /// True iff some stored position lies inside directory `dir`.
    pub fn has_children(&self, dir: u64) -> (r: bool)
        ensures
            r == has_children(self@.names, dir),
    {
        let mut i: usize = 0;
        while i < self.entries.len()
            invariant
                i <= self.entries@.len(),
                forall|j: int| 0 <= j < i ==> (#[trigger] self.entries@[j]).parent != dir,
            decreases self.entries@.len() - i,
        {
            if self.entries[i].parent == dir {
                proof {
                    lemma_key_present(self.entries@, i as int);
                    assert(self@.names.contains_key(key_of(self.entries@[i as int])));
                }
                return true;
            }
            i = i + 1;
        }
        proof {
            assert forall|k: (u64, Seq<char>)| #[trigger] self@.names.contains_key(k) implies k.0 != dir by {
                lemma_present_has_index(self.entries@, k);
            }
        }
        false
    }

    /// True iff directory `dir` is marked opaque.
    pub fn is_opaque(&self, dir: u64) -> (r: bool)
        ensures
            r == self@.opaque.contains(dir),
    {
        let mut i: usize = 0;
        while i < self.opaque.len()
            invariant
                i <= self.opaque@.len(),
                forall|j: int| 0 <= j < i ==> self.opaque@[j] != dir,
            decreases self.opaque@.len() - i,
        {
            if self.opaque[i] == dir {
                assert(self.opaque@.to_set().contains(self.opaque@[i as int]));
                return true;
            }
            i = i + 1;
        }
        false
    }

    /// Marks directory `dir` opaque.
    pub fn mark_opaque(&mut self, dir: u64)
        ensures
            final(self)@.names == old(self)@.names,
            final(self)@.opaque == old(self)@.opaque.insert(dir),
    {
        let ghost before = self.opaque@;
        self.opaque.push(dir);
        proof {
            before.lemma_push_to_set_commute(dir);
        }
    }

    /// The host rename primitive on this layer, with the modifier bits passed
    /// through unchanged.
    pub fn raw_rename(&mut self, parent: u64, name: &String, new_parent: u64, new_name: &String, flags: u32) -> (r: Result<(), i32>)
        ensures
            (r, final(self)@.names) == raw_rename_spec(old(self)@.names, (parent, name@), (new_parent, new_name@), flags),
            final(self)@.opaque == old(self)@.opaque,
    {
        let ghost m = self@.names;
        let ghost src = (parent, name@);
        let ghost dst = (new_parent, new_name@);
        if validate_flags(flags).is_err() {
            return Err(EINVAL);
        }
        let sn = match self.get(parent, name) {
            Some(n) => n,
            None => return Err(ENOENT),
        };
        if parent == new_parent && name.eq(new_name) {
            return Ok(());
        }
        assert(src != dst);
        let dn = self.get(new_parent, new_name);
        if flags & RENAME_EXCHANGE != 0 {
            match dn {
                None => return Err(ENOENT),
                Some(d) => {
                    self.insert_name(parent, name.clone(), d);
                    self.insert_name(new_parent, new_name.clone(), sn);
                    return Ok(());
                },
            }
        }
        match &dn {
            Some(d) => {
                if flags & RENAME_NOREPLACE != 0 {
                    return Err(EEXIST);
                }
                if sn.ino != NO_INODE && d.ino == sn.ino {
                    return Ok(());
                }
                if sn.is_dir() && !d.is_dir() {
                    return Err(ENOTDIR);
                }
                if !sn.is_dir() && d.is_dir() {
                    return Err(EISDIR);
                }
                if d.is_dir() && self.has_children(d.ino) {
                    return Err(ENOTEMPTY);
                }
            },
            None => {},
        }
        self.remove_name(parent, name);
        self.insert_name(new_parent, new_name.clone(), sn);
        if flags & RENAME_WHITEOUT != 0 {
            self.insert_name(parent, name.clone(), Node::whiteout());
        }
        Ok(())
    }
}

} // verus!
