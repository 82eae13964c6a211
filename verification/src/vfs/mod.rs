//! The file namespace: a tree of directories and files in memory, addressed
//! by paths.

pub mod file;
pub mod ata;

use vstd::prelude::*;

verus! {

/// Why the namespace refused a request.
#[derive(Debug, Clone, Copy, PartialEq, Eq, Structural)]
pub enum VfsError {
    /// The path leads into a file where a directory is needed.
    DirEntry,
    /// A directory on the path has no entry of the name asked for.
    NotFound,
}

/// What an entry stands for: a directory maps names to entries, a file is
/// a sequence of bytes.
pub enum Node {
    Directory(Map<Seq<char>, Node>),
    File(Seq<u8>),
}

impl Node {
    /// The node that a walk along `path` ends at: it goes down one directory
    /// per name, and stops at the first file or where the path ends. Where a
    /// directory lacks the next name there is no such node.
    pub open spec fn walk(self, path: Seq<Seq<char>>) -> Option<Node>
        decreases path.len(),
    {
        match self {
            Node::File(_) => Some(self),
            Node::Directory(children) => if path.len() == 0 {
                Some(self)
            } else if children.contains_key(path[0]) {
                children[path[0]].walk(path.skip(1))
            } else {
                None
            },
        }
    }

    /// The tree with `node` in place of the node that the walk along `path`
    /// ends at. Where the walk ends nowhere the tree stays as it is.
    pub open spec fn graft(self, path: Seq<Seq<char>>, node: Node) -> Node
        decreases path.len(),
    {
        match self {
            Node::File(_) => node,
            Node::Directory(children) => if path.len() == 0 {
                node
            } else if children.contains_key(path[0]) {
                Node::Directory(
                    children.insert(path[0], children[path[0]].graft(path.skip(1), node)),
                )
            } else {
                self
            },
        }
    }
}

/// The names of a path, from the root: the runs of characters between
/// slashes, without the empty ones. `pending` holds the characters of the
/// name that was begun before `text`.
pub open spec fn split(text: Seq<char>, pending: Seq<char>) -> Seq<Seq<char>>
    decreases text.len(),
{
    if text.len() == 0 {
        if pending.len() > 0 {
            seq![pending]
        } else {
            seq![]
        }
    } else if text[0] == '/' {
        if pending.len() > 0 {
            seq![pending] + split(text.skip(1), seq![])
        } else {
            split(text.skip(1), seq![])
        }
    } else {
        split(text.skip(1), pending.push(text[0]))
    }
}

/// The names of a path, from the root.
pub open spec fn names(path: Seq<char>) -> Seq<Seq<char>> {
    split(path, seq![])
}

/// The names of a path that lead to the directory of what it addresses:
/// all but the last.
pub open spec fn parent_of(path: Seq<char>) -> Seq<Seq<char>> {
    if names(path).len() > 0 {
        names(path).drop_last()
    } else {
        Seq::empty()
    }
}

/// The name of what a path addresses: its last name, and the empty name
/// where it has none.
pub open spec fn name_of(path: Seq<char>) -> Seq<char> {
    if names(path).len() > 0 {
        names(path).last()
    } else {
        Seq::empty()
    }
}

/// An entry of the namespace. A directory holds its entries by name, each
/// name once; where a name came twice, the first entry of that name would
/// count.
pub enum Entry {
    Directory { entries: Vec<(String, Entry)> },
    File { content: Vec<u8> },
}

/// Some entry of the list has the name.
pub open spec fn has_name(entries: Seq<(String, Entry)>, name: Seq<char>) -> bool {
    exists|i: int| 0 <= i < entries.len() && (#[trigger] entries[i]).0@ == name
}

/// Entry `i` is the first of the list that has the name.
pub open spec fn first_named(entries: Seq<(String, Entry)>, name: Seq<char>, i: int) -> bool {
    &&& 0 <= i < entries.len()
    &&& entries[i].0@ == name
    &&& forall|j: int| 0 <= j < i ==> (#[trigger] entries[j]).0@ != name
}

/// The place of the first entry of the list that has the name.
pub open spec fn index_of(entries: Seq<(String, Entry)>, name: Seq<char>) -> int {
    choose|i: int| first_named(entries, name, i)
}

impl Entry {
    /// What the entry stands for.
    pub open spec fn view(self) -> Node
        decreases self,
    {
        match self {
            Entry::File { content } => Node::File(content@),
            Entry::Directory { entries } => Node::Directory(
                Map::new(
                    |name: Seq<char>| has_name(entries@, name),
                    |name: Seq<char>|
                        {
                            let i = index_of(entries@, name);
                            if 0 <= i < entries@.len() {
                                entries@[i].1.view()
                            } else {
                                Node::File(Seq::empty())
                            }
                        },
                ),
            ),
        }
    }
}

/// A list in which a name occurs has a first entry of that name.
pub proof fn lemma_first_exists(entries: Seq<(String, Entry)>, name: Seq<char>, i: int)
    requires
        0 <= i < entries.len(),
        entries[i].0@ == name,
    ensures
        first_named(entries, name, index_of(entries, name)),
    decreases i,
{
    if forall|j: int| 0 <= j < i ==> (#[trigger] entries[j]).0@ != name {
        assert(first_named(entries, name, i));
    } else {
        let j = choose|j: int| 0 <= j < i && (#[trigger] entries[j]).0@ == name;
        lemma_first_exists(entries, name, j);
    }
}

/// Only one entry is the first of its name.
pub proof fn lemma_first_unique(entries: Seq<(String, Entry)>, name: Seq<char>, i: int, j: int)
    requires
        first_named(entries, name, i),
        first_named(entries, name, j),
    ensures
        i == j,
{
    if i < j {
        assert(entries[i].0@ != name);
    } else if j < i {
        assert(entries[j].0@ != name);
    }
}

/// A directory maps a name to what its first entry of that name stands for.
pub proof fn lemma_child(entry: Entry, name: Seq<char>, i: int)
    requires
        entry is Directory,
        first_named(entry->entries@, name, i),
    ensures
        entry@ is Directory,
        entry@->Directory_0.contains_key(name),
        entry@->Directory_0[name] == entry->entries@[i].1@,
{
    let entries = entry->entries@;
    lemma_first_exists(entries, name, i);
    lemma_first_unique(entries, name, i, index_of(entries, name));
}

/// A directory without an entry of a name does not map that name.
pub proof fn lemma_no_child(entry: Entry, name: Seq<char>)
    requires
        entry is Directory,
        !has_name(entry->entries@, name),
    ensures
        entry@ is Directory,
        !entry@->Directory_0.contains_key(name),
{
}

/// Replacing the first entry of a name by another of that name changes
/// what the directory maps that name to, and nothing else.
pub proof fn lemma_replace_child(before: Entry, after: Entry, name: Seq<char>, i: int)
    requires
        before is Directory,
        after is Directory,
        first_named(before->entries@, name, i),
        after->entries@.len() == before->entries@.len(),
        after->entries@[i].0@ == name,
        forall|j: int|
            0 <= j < before->entries@.len() && j != i ==> #[trigger] after->entries@[j]
                == before->entries@[j],
    ensures
        after@ == Node::Directory(before@->Directory_0.insert(name, after->entries@[i].1@)),
{
    let old_entries = before->entries@;
    let new_entries = after->entries@;
    let expected = before@->Directory_0.insert(name, new_entries[i].1@);
    assert forall|key: Seq<char>| has_name(new_entries, key) == has_name(old_entries, key) by {
        if has_name(new_entries, key) {
            let j = choose|j: int|
                0 <= j < new_entries.len() && (#[trigger] new_entries[j]).0@ == key;
            assert(old_entries[j].0@ == key);
        }
        if has_name(old_entries, key) {
            let j = choose|j: int|
                0 <= j < old_entries.len() && (#[trigger] old_entries[j]).0@ == key;
            assert(new_entries[j].0@ == key);
        }
    }
    assert forall|key: Seq<char>| #[trigger]
        has_name(new_entries, key) implies after@->Directory_0[key] == expected[key] by {
        let j = choose|j: int|
            0 <= j < new_entries.len() && (#[trigger] new_entries[j]).0@ == key;
        lemma_first_exists(new_entries, key, j);
        let first = index_of(new_entries, key);
        assert(first_named(old_entries, key, first)) by {
            assert(old_entries[first].0@ == key);
            assert forall|k: int| 0 <= k < first implies (#[trigger] old_entries[k]).0@ != key by {
                assert(new_entries[k].0@ != key);
            }
        }
        lemma_first_exists(old_entries, key, first);
        lemma_first_unique(old_entries, key, first, index_of(old_entries, key));
        if key == name {
            lemma_first_unique(old_entries, key, first, i);
        }
    }
    assert(after@->Directory_0 =~= expected);
}

/// Adding an entry of a name that the directory lacks makes the directory
/// map that name to the entry, and changes nothing else.
pub proof fn lemma_add_child(before: Entry, after: Entry, name: Seq<char>)
    requires
        before is Directory,
        after is Directory,
        !has_name(before->entries@, name),
        after->entries@.len() == before->entries@.len() + 1,
        after->entries@.last().0@ == name,
        forall|j: int|
            0 <= j < before->entries@.len() ==> #[trigger] after->entries@[j]
                == before->entries@[j],
    ensures
        after@ == Node::Directory(before@->Directory_0.insert(name, after->entries@.last().1@)),
{
    let old_entries = before->entries@;
    let new_entries = after->entries@;
    let last = old_entries.len() as int;
    let expected = before@->Directory_0.insert(name, new_entries[last].1@);
    assert forall|key: Seq<char>| has_name(new_entries, key) == (has_name(old_entries, key) || key
        == name) by {
        if has_name(new_entries, key) {
            let j = choose|j: int|
                0 <= j < new_entries.len() && (#[trigger] new_entries[j]).0@ == key;
            if j < last {
                assert(old_entries[j].0@ == key);
            }
        }
        if has_name(old_entries, key) {
            let j = choose|j: int|
                0 <= j < old_entries.len() && (#[trigger] old_entries[j]).0@ == key;
            assert(new_entries[j].0@ == key);
        }
        if key == name {
            assert(new_entries[last].0@ == key);
        }
    }
    assert forall|key: Seq<char>| #[trigger]
        has_name(new_entries, key) implies after@->Directory_0[key] == expected[key] by {
        let j = choose|j: int|
            0 <= j < new_entries.len() && (#[trigger] new_entries[j]).0@ == key;
        lemma_first_exists(new_entries, key, j);
        let first = index_of(new_entries, key);
        if key == name {
            if first < last {
                assert(old_entries[first].0@ == name);
            }
        } else {
            assert(first < last);
            assert(first_named(old_entries, key, first)) by {
                assert(old_entries[first].0@ == key);
                assert forall|k: int| 0 <= k < first implies (#[trigger] old_entries[k]).0@
                    != key by {
                    assert(new_entries[k].0@ != key);
                }
            }
            lemma_first_exists(old_entries, key, first);
            lemma_first_unique(old_entries, key, first, index_of(old_entries, key));
        }
    }
    assert(after@->Directory_0 =~= expected);
}

/// Two directories stand for the same where their entries have, place by
/// place, one name and stand for the same.
pub proof fn lemma_same_children(first: Entry, second: Entry)
    requires
        first is Directory,
        second is Directory,
        first->entries@.len() == second->entries@.len(),
        forall|i: int|
            0 <= i < first->entries@.len() ==> (#[trigger] second->entries@[i]).0@
                == first->entries@[i].0@ && second->entries@[i].1@ == first->entries@[i].1@,
    ensures
        second@ == first@,
{
    let a = first->entries@;
    let b = second->entries@;
    assert forall|key: Seq<char>| has_name(b, key) == has_name(a, key) by {
        if has_name(b, key) {
            let j = choose|j: int| 0 <= j < b.len() && (#[trigger] b[j]).0@ == key;
            assert(a[j].0@ == key);
        }
        if has_name(a, key) {
            let j = choose|j: int| 0 <= j < a.len() && (#[trigger] a[j]).0@ == key;
            assert(b[j].0@ == key);
        }
    }
    assert forall|key: Seq<char>| #[trigger] has_name(b, key) implies second@->Directory_0[key]
        == first@->Directory_0[key] by {
        let j = choose|j: int| 0 <= j < b.len() && (#[trigger] b[j]).0@ == key;
        lemma_first_exists(b, key, j);
        let at = index_of(b, key);
        assert(first_named(a, key, at)) by {
            assert(a[at].0@ == key);
            assert forall|k: int| 0 <= k < at implies (#[trigger] a[k]).0@ != key by {
                assert(b[k].0@ != key);
            }
        }
        lemma_first_exists(a, key, at);
        lemma_first_unique(a, key, at, index_of(a, key));
    }
    assert(second@->Directory_0 =~= first@->Directory_0);
}

/// What `make` does with the names of a path: it walks along all but the
/// last, and in the directory that the walk ends at it puts what `new`
/// gives under the last name, in place of an entry of that name. A walk
/// that ends nowhere or at a file changes nothing.
pub open spec fn makes<F: Fn() -> Entry>(
    before: Node,
    parent: Seq<Seq<char>>,
    name: Seq<char>,
    new: F,
    after: Node,
    result: Result<(), VfsError>,
) -> bool {
    match before.walk(parent) {
        None => result == Err::<(), VfsError>(VfsError::NotFound) && after == before,
        Some(Node::File(_)) => result == Err::<(), VfsError>(VfsError::DirEntry) && after
            == before,
        Some(Node::Directory(children)) => exists|entry: Entry|
            {
                &&& #[trigger] call_ensures(new, (), entry)
                &&& result == Ok::<(), VfsError>(())
                &&& after == before.graft(
                    parent,
                    Node::Directory(children.insert(name, entry@)),
                )
            },
    }
}

/// The names of a path, from the root: the parts between slashes that are
/// not empty.
pub fn segments(path: &str) -> (found: Vec<String>)
    ensures
        found.deep_view() == names(path@),
{
    let length = path.unicode_len();
    let mut found: Vec<String> = Vec::new();
    let mut start: usize = 0;
    let mut index: usize = 0;
    proof {
        assert(path@.skip(0) =~= path@);
        assert(path@.subrange(0, 0) =~= Seq::<char>::empty());
        assert(found.deep_view() =~= Seq::<Seq<char>>::empty());
        assert(found.deep_view() + names(path@) =~= names(path@));
    }
    while index < length
        invariant
            start <= index <= length,
            length == path@.len(),
            names(path@) == found.deep_view() + split(
                path@.skip(index as int),
                path@.subrange(start as int, index as int),
            ),
        decreases length - index,
    {
        let ghost before = found.deep_view();
        let ghost pending = path@.subrange(start as int, index as int);
        proof {
            assert(path@.skip(index as int).skip(1) =~= path@.skip(index + 1));
            assert(path@.skip(index as int)[0] == path@[index as int]);
            assert(pending.push(path@[index as int]) =~= path@.subrange(
                start as int,
                index + 1,
            ));
            assert(path@.subrange(index + 1, index + 1) =~= Seq::<char>::empty());
        }
        if path.get_char(index) == '/' {
            if start < index {
                found.push(path.substring_char(start, index).to_owned());
                proof {
                    assert(found.deep_view() =~= before.push(pending));
                    assert(before + (seq![pending] + split(path@.skip(index + 1), seq![]))
                        =~= before.push(pending) + split(path@.skip(index + 1), seq![]));
                }
            }
            start = index + 1;
        }
        index += 1;
    }
    let ghost before = found.deep_view();
    let ghost pending = path@.subrange(start as int, length as int);
    proof {
        assert(path@.skip(length as int) =~= Seq::<char>::empty());
    }
    if start < length {
        found.push(path.substring_char(start, length).to_owned());
        proof {
            assert(found.deep_view() =~= before.push(pending));
            assert(before + seq![pending] =~= before.push(pending));
        }
    } else {
        proof {
            assert(before + Seq::<Seq<char>>::empty() =~= before);
        }
    }
    found
}

/// Calls `f` on one entry.
fn visit<F>(f: &F, entry: &mut Entry) -> (result: Result<(), VfsError>) where
    F: Fn(&mut Entry) -> Result<(), VfsError>,

    requires
        forall|given: &mut Entry| call_requires(*f, (given,)),
    ensures
        exists|given: &mut Entry|
            {
                &&& *given == *old(entry)
                &&& *final(given) == *final(entry)
                &&& #[trigger] call_ensures(*f, (given,), result)
            },
{
    f(entry)
}

/// The place of the first entry of the list that has the name.
fn find(entries: &Vec<(String, Entry)>, name: &String) -> (found: Option<usize>)
    ensures
        match found {
            Some(i) => first_named(entries@, name@, i as int),
            None => !has_name(entries@, name@),
        },
{
    let mut index: usize = 0;
    while index < entries.len()
        invariant
            index <= entries.len(),
            forall|j: int| 0 <= j < index ==> (#[trigger] entries@[j]).0@ != name@,
        decreases entries.len() - index,
    {
        if entries[index].0 == *name {
            return Some(index);
        }
        index += 1;
    }
    None
}

impl Clone for Entry {
    /// A copy of the whole tree below the entry.
    fn clone(&self) -> (copy: Entry)
        ensures
            copy@ == self@,
        decreases self,
    {
        match self {
            Entry::File { content } => Entry::File { content: content.clone() },
            Entry::Directory { entries } => {
                let mut copies: Vec<(String, Entry)> = Vec::new();
                let mut index: usize = 0;
                while index < entries.len()
                    invariant
                        index <= entries.len(),
                        self == (Entry::Directory { entries: *entries }),
                        copies@.len() == index,
                        forall|i: int|
                            0 <= i < index ==> (#[trigger] copies@[i]).0@ == entries@[i].0@
                                && copies@[i].1@ == entries@[i].1@,
                    decreases entries.len() - index,
                {
                    proof {
                        let children = self->entries@;
                        assert(decreases_to!(*self => children[index as int].1));
                    }
                    let name = entries[index].0.clone();
                    let child = entries[index].1.clone();
                    copies.push((name, child));
                    index += 1;
                }
                let copy = Entry::Directory { entries: copies };
                proof {
                    lemma_same_children(*self, copy);
                }
                copy
            },
        }
    }
}

impl Entry {
    /// A directory without entries.
    pub fn new_dir() -> (entry: Entry)
        ensures
            entry@ == Node::Directory(Map::empty()),
    {
        let entry = Entry::Directory { entries: Vec::new() };
        assert(entry@->Directory_0 =~= Map::<Seq<char>, Node>::empty());
        entry
    }

    /// A file without content.
    pub fn new_file() -> (entry: Entry)
        ensures
            entry@ == Node::File(Seq::empty()),
    {
        Entry::File { content: Vec::new() }
    }

    /// Walks along `path` and calls `f` on the entry that the walk ends at,
    /// which is the one that the path names, or a file on the way to it.
    /// The result is that of `f`. A walk that ends nowhere changes nothing
    /// and reports that the name was not found.
    ///
    /// In the contract `entry` stands for the reference that `f` received.
    pub fn inspect<F>(&mut self, path: &Vec<String>, f: F) -> (result: Result<
        (),
        VfsError,
    >) where F: Fn(&mut Entry) -> Result<(), VfsError>
        requires
            forall|entry: &mut Entry| call_requires(f, (entry,)),
        ensures
            match old(self)@.walk(path.deep_view()) {
                None => result == Err::<(), VfsError>(VfsError::NotFound) && final(self)@ == old(
                    self,
                )@,
                Some(target) => exists|entry: &mut Entry|
                    {
                        &&& (*entry)@ == target
                        &&& #[trigger] call_ensures(f, (entry,), result)
                        &&& final(self)@ == old(self)@.graft(path.deep_view(), (*final(entry))@)
                    },
            },
    {
        proof {
            assert(path.deep_view().skip(0) =~= path.deep_view());
        }
        self.inspect_from(path, 0, &f)
    }

    /// The part of `inspect` that starts at name `depth` of the path.
    fn inspect_from<F>(&mut self, path: &Vec<String>, depth: usize, f: &F) -> (result: Result<
        (),
        VfsError,
    >) where F: Fn(&mut Entry) -> Result<(), VfsError>
        requires
            depth <= path.len(),
            forall|entry: &mut Entry| call_requires(*f, (entry,)),
        ensures
            match old(self)@.walk(path.deep_view().skip(depth as int)) {
                None => result == Err::<(), VfsError>(VfsError::NotFound) && final(self)@ == old(
                    self,
                )@,
                Some(target) => exists|entry: &mut Entry|
                    {
                        &&& (*entry)@ == target
                        &&& #[trigger] call_ensures(*f, (entry,), result)
                        &&& final(self)@ == old(self)@.graft(
                            path.deep_view().skip(depth as int),
                            (*final(entry))@,
                        )
                    },
            },
        decreases path.len() - depth,
    {
        let ghost rest = path.deep_view().skip(depth as int);
        let ghost before = *self;
        if depth < path.len() {
            proof {
                assert(rest[0] == path@[depth as int]@);
                assert(rest.skip(1) =~= path.deep_view().skip(depth + 1));
            }
            if let Entry::Directory { entries } = self {
                match find(entries, &path[depth]) {
                    Some(index) => {
                        let ghost child = entries@[index as int].1;
                        proof {
                            lemma_child(before, rest[0], index as int);
                        }
                        let result = entries[index].1.inspect_from(path, depth + 1, f);
                        proof {
                            lemma_replace_child(before, *self, rest[0], index as int);
                            let replaced = self->entries@[index as int].1;
                            let children = before@->Directory_0;
                            if child@.walk(rest.skip(1)) is None {
                                assert(children.insert(rest[0], replaced@) =~= children);
                            } else {
                                let entry = choose|entry: &mut Entry|
                                    {
                                        &&& (*entry)@ == child@.walk(rest.skip(1))->Some_0
                                        &&& #[trigger] call_ensures(*f, (entry,), result)
                                        &&& replaced@ == child@.graft(
                                            rest.skip(1),
                                            (*final(entry))@,
                                        )
                                    };
                                assert(call_ensures(*f, (entry,), result));
                            }
                        }
                        return result;
                    },
                    None => {
                        proof {
                            lemma_no_child(before, rest[0]);
                        }
                        return Err(VfsError::NotFound);
                    },
                }
            }
        }
        let result = visit(f, self);
        proof {
            let entry = choose|entry: &mut Entry|
                {
                    &&& *entry == before
                    &&& *final(entry) == *self
                    &&& #[trigger] call_ensures(*f, (entry,), result)
                };
            assert(call_ensures(*f, (entry,), result));
        }
        result
    }

    /// Looking an entry up is not provided yet: a request for `path` leaves
    /// the tree as it is.
    pub fn retrieve(&mut self, path: &str)
        ensures
            final(self)@ == old(self)@,
    {
    }

    /// Puts what `new` gives at `path`: see `makes`. The last name of the path
    /// is the name of the new entry, and the names before it lead to its
    /// directory. A path without a name stands for the empty name in the
    /// root.
    pub fn make<F>(&mut self, path: &str, new: F) -> (result: Result<(), VfsError>) where
        F: Fn() -> Entry,

        requires
            call_requires(new, ()),
        ensures
            makes(old(self)@, parent_of(path@), name_of(path@), new, final(self)@, result),
    {
        let mut path = segments(path);
        let ghost all = path.deep_view();
        let name = match path.pop() {
            Some(name) => name,
            None => String::new(),
        };
        proof {
            if all.len() > 0 {
                assert(path.deep_view() =~= all.drop_last());
            } else {
                assert(path.deep_view() =~= Seq::<Seq<char>>::empty());
            }
            assert(path.deep_view().skip(0) =~= path.deep_view());
        }
        self.place(&path, 0, name, &new)
    }

    /// The part of `make` that starts at name `depth` of the path to the
    /// directory.
    fn place<F>(&mut self, path: &Vec<String>, depth: usize, name: String, new: &F) -> (result:
        Result<(), VfsError>) where F: Fn() -> Entry
        requires
            depth <= path.len(),
            call_requires(*new, ()),
        ensures
            makes(
                old(self)@,
                path.deep_view().skip(depth as int),
                name@,
                *new,
                final(self)@,
                result,
            ),
        decreases path.len() - depth,
    {
        let ghost rest = path.deep_view().skip(depth as int);
        let ghost before = *self;
        match self {
            Entry::Directory { entries } => {
                if depth < path.len() {
                    proof {
                        assert(rest[0] == path@[depth as int]@);
                        assert(rest.skip(1) =~= path.deep_view().skip(depth + 1));
                    }
                    match find(entries, &path[depth]) {
                        Some(index) => {
                            let ghost child = entries@[index as int].1;
                            proof {
                                lemma_child(before, rest[0], index as int);
                            }
                            let result = entries[index].1.place(path, depth + 1, name, new);
                            proof {
                                lemma_replace_child(before, *self, rest[0], index as int);
                                let replaced = self->entries@[index as int].1;
                                let children = before@->Directory_0;
                                match child@.walk(rest.skip(1)) {
                                    Some(Node::Directory(inner)) => {
                                        let entry = choose|entry: Entry|
                                            {
                                                &&& #[trigger] call_ensures(*new, (), entry)
                                                &&& result == Ok::<(), VfsError>(())
                                                &&& replaced@ == child@.graft(
                                                    rest.skip(1),
                                                    Node::Directory(inner.insert(name@, entry@)),
                                                )
                                            };
                                        assert(call_ensures(*new, (), entry));
                                    },
                                    _ => {
                                        assert(children.insert(rest[0], replaced@) =~= children);
                                    },
                                }
                            }
                            result
                        },
                        None => {
                            proof {
                                lemma_no_child(before, rest[0]);
                            }
                            Err(VfsError::NotFound)
                        },
                    }
                } else {
                    let entry = new();
                    match find(entries, &name) {
                        Some(index) => {
                            entries[index] = (name, entry);
                            proof {
                                lemma_replace_child(before, *self, name@, index as int);
                            }
                        },
                        None => {
                            entries.push((name, entry));
                            proof {
                                lemma_add_child(before, *self, name@);
                            }
                        },
                    }
                    proof {
                        assert(call_ensures(*new, (), entry));
                    }
                    Ok(())
                }
            },
            Entry::File { .. } => Err(VfsError::DirEntry),
        }
    }
}

/// The names of the three paths that `init` makes.
proof fn lemma_console_paths()
    ensures
        names("/tty"@) == seq!["tty"@],
        names("/tty/stdout"@) == seq!["tty"@, "stdout"@],
        names("/tty/stdin"@) == seq!["tty"@, "stdin"@],
{
    reveal_strlit("/tty");
    reveal_strlit("/tty/stdout");
    reveal_strlit("/tty/stdin");
    reveal_strlit("tty");
    reveal_strlit("stdout");
    reveal_strlit("stdin");
    reveal_with_fuel(split, 13);
    assert(names("/tty"@) =~~= seq!["tty"@]);
    assert(names("/tty/stdout"@) =~~= seq!["tty"@, "stdout"@]);
    assert(names("/tty/stdin"@) =~~= seq!["tty"@, "stdin"@]);
}

/// Lays out the part of the namespace that the console uses: a directory
/// `tty` in the root, in place of any entry of that name, with the empty
/// files `stdout` and `stdin`. A root that is a file is refused.
pub fn init(root: &mut Entry) -> (result: Result<(), VfsError>)
    ensures
        match old(root)@ {
            Node::File(_) => result == Err::<(), VfsError>(VfsError::DirEntry) && final(root)@
                == old(root)@,
            Node::Directory(children) => result == Ok::<(), VfsError>(()) && final(root)@
                == Node::Directory(
                children.insert(
                    "tty"@,
                    Node::Directory(
                        Map::<Seq<char>, Node>::empty().insert(
                            "stdout"@,
                            Node::File(Seq::empty()),
                        ).insert("stdin"@, Node::File(Seq::empty())),
                    ),
                ),
            ),
        },
{
    let directory = || -> (entry: Entry)
        ensures
            entry@ == Node::Directory(Map::empty()),
        { Entry::new_dir() };
    let file = || -> (entry: Entry)
        ensures
            entry@ == Node::File(Seq::empty()),
        { Entry::new_file() };
    proof {
        lemma_console_paths();
        reveal_strlit("tty");
        reveal_strlit("stdout");
        reveal_strlit("stdin");
        reveal_with_fuel(Node::walk, 3);
        reveal_with_fuel(Node::graft, 3);
    }
    let ghost tty = seq!["tty"@];
    assert(tty.skip(1) =~= Seq::<Seq<char>>::empty());
    assert(seq!["tty"@, "stdout"@].drop_last() =~= tty);
    assert(seq!["tty"@, "stdin"@].drop_last() =~= tty);
    assert(seq!["tty"@].drop_last() =~= Seq::<Seq<char>>::empty());
    match root.make("/tty", directory) {
        Ok(_) => {},
        Err(error) => {
            return Err(error);
        },
    }
    let ghost first = root@;
    match root.make("/tty/stdout", file) {
        Ok(_) => {},
        Err(error) => {
            return Err(error);
        },
    }
    let ghost second = root@;
    match root.make("/tty/stdin", file) {
        Ok(_) => {},
        Err(error) => {
            return Err(error);
        },
    }
    proof {
        let children = old(root)@->Directory_0;
        let empty = Map::<Seq<char>, Node>::empty();
        let with_out = empty.insert("stdout"@, Node::File(Seq::empty()));
        let with_both = with_out.insert("stdin"@, Node::File(Seq::empty()));
        assert(first == Node::Directory(children.insert("tty"@, Node::Directory(empty))));
        assert(second == Node::Directory(
            children.insert("tty"@, Node::Directory(empty)).insert(
                "tty"@,
                Node::Directory(with_out),
            ),
        ));
        assert(children.insert("tty"@, Node::Directory(empty)).insert(
            "tty"@,
            Node::Directory(with_out),
        ) =~= children.insert("tty"@, Node::Directory(with_out)));
        assert(children.insert("tty"@, Node::Directory(with_out)).insert(
            "tty"@,
            Node::Directory(with_both),
        ) =~= children.insert("tty"@, Node::Directory(with_both)));
    }
    Ok(())
}

} // verus!
