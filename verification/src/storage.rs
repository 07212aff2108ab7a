//! The data root: the files of a directory, held in memory.
//!
//! The engine reads and changes a [`DataRoot`]; loading one from a directory and writing it
//! back are the caller's work. In contracts a data root is a map from file name to content.

use vstd::prelude::*;

verus! {

/// One file: its name within the data root and the text it holds.
pub struct TableFile {
    name: String,
    content: String,
}

/// The files of a data root.
pub struct DataRoot {
    files: Vec<TableFile>,
}

/// The map that a list of files stands for. Were a name to occur twice, the later file
/// would count; in a data root no name does.
pub closed spec fn files_map(files: Seq<TableFile>) -> Map<Seq<char>, Seq<char>>
    decreases files.len(),
{
    if files.len() == 0 {
        Map::empty()
    } else {
        files_map(files.drop_last()).insert(files.last().name@, files.last().content@)
    }
}

/// No file from position `from` on is called `name`.
spec fn absent_from(files: Seq<TableFile>, name: Seq<char>, from: int) -> bool {
    forall|j: int| from <= j < files.len() ==> (#[trigger] files[j]).name@ != name
}

proof fn lemma_absent(files: Seq<TableFile>, name: Seq<char>)
    requires
        absent_from(files, name, 0),
    ensures
        !files_map(files).contains_key(name),
    decreases files.len(),
{
    if files.len() > 0 {
        let shorter = files.drop_last();
        assert forall|j: int| 0 <= j < shorter.len() implies (#[trigger] shorter[j]).name@
            != name by {
            assert(shorter[j] == files[j]);
        }
        lemma_absent(shorter, name);
        assert(files[files.len() - 1].name@ != name);
    }
}

proof fn lemma_present(files: Seq<TableFile>, name: Seq<char>, at: int)
    requires
        0 <= at < files.len(),
        files[at].name@ == name,
        absent_from(files, name, at + 1),
    ensures
        files_map(files).contains_key(name),
        files_map(files)[name] == files[at].content@,
    decreases files.len(),
{
    if at < files.len() - 1 {
        let shorter = files.drop_last();
        assert(shorter[at] == files[at]);
        assert forall|j: int| at + 1 <= j < shorter.len() implies (#[trigger] shorter[j]).name@
            != name by {
            assert(shorter[j] == files[j]);
        }
        lemma_present(shorter, name, at);
        assert(files[files.len() - 1].name@ != name);
    }
}

proof fn lemma_replace(files: Seq<TableFile>, at: int, file: TableFile)
    requires
        0 <= at < files.len(),
        files[at].name@ == file.name@,
        absent_from(files, file.name@, at + 1),
    ensures
        files_map(files.update(at, file)) == files_map(files).insert(file.name@, file.content@),
    decreases files.len(),
{
    let changed = files.update(at, file);
    let shorter = files.drop_last();
    if at == files.len() - 1 {
        assert(changed.drop_last() =~= shorter);
        assert(files_map(changed) =~= files_map(files).insert(file.name@, file.content@));
    } else {
        assert(shorter[at] == files[at]);
        assert forall|j: int| at + 1 <= j < shorter.len() implies (#[trigger] shorter[j]).name@
            != file.name@ by {
            assert(shorter[j] == files[j]);
        }
        lemma_replace(shorter, at, file);
        assert(changed.drop_last() =~= shorter.update(at, file));
        assert(changed.last() == files.last());
        assert(files[files.len() - 1].name@ != file.name@);
        assert(files_map(changed) =~= files_map(files).insert(file.name@, file.content@));
    }
}

impl View for DataRoot {
    type V = Map<Seq<char>, Seq<char>>;

    closed spec fn view(&self) -> Map<Seq<char>, Seq<char>> {
        files_map(self.files@)
    }
}

impl DataRoot {
    /// No two files share a name.
    #[verifier::type_invariant]
    spec fn names_differ(&self) -> bool {
        forall|i: int, j: int|
            0 <= i < j < self.files.len() ==> self.files[i].name@ != self.files[j].name@
    }

    /// A data root without files.
    pub fn new() -> (root: DataRoot)
        ensures
            root@ == Map::<Seq<char>, Seq<char>>::empty(),
    {
        DataRoot { files: Vec::new() }
    }

    /// The position of the file that counts for `name`.
    fn find(&self, name: &String) -> (found: Option<usize>)
        ensures
            match found {
                Some(at) => at < self.files.len() && self.files[at as int].name@ == name@
                    && absent_from(self.files@, name@, at + 1),
                None => absent_from(self.files@, name@, 0),
            },
    {
        let mut i = self.files.len();
        while i > 0
            invariant
                i <= self.files.len(),
                absent_from(self.files@, name@, i as int),
            decreases i,
        {
            i = i - 1;
            if self.files[i].name == *name {
                return Some(i);
            }
        }
        None
    }

    /// Whether the data root holds a file called `name`.
    pub fn contains(&self, name: &String) -> (held: bool)
        ensures
            held == self@.contains_key(name@),
    {
        match self.find(name) {
            Some(at) => {
                proof {
                    lemma_present(self.files@, name@, at as int);
                }
                true
            },
            None => {
                proof {
                    lemma_absent(self.files@, name@);
                }
                false
            },
        }
    }

    /// The content of the file called `name`, where there is one.
    pub fn read(&self, name: &String) -> (content: Option<&String>)
        ensures
            match content {
                Some(text) => self@.contains_key(name@) && text@ == self@[name@],
                None => !self@.contains_key(name@),
            },
    {
        match self.find(name) {
            Some(at) => {
                proof {
                    lemma_present(self.files@, name@, at as int);
                }
                Some(&self.files[at].content)
            },
            None => {
                proof {
                    lemma_absent(self.files@, name@);
                }
                None
            },
        }
    }

    /// Stores `content` under `name`, in place of what was there before.
    pub fn write(&mut self, name: String, content: String)
        ensures
            final(self)@ == old(self)@.insert(name@, content@),
    {
        let found = self.find(&name);
        let file = TableFile { name, content };
        proof {
            use_type_invariant(&*self);
        }
        let ghost before = self.files@;
        let mut files: Vec<TableFile> = Vec::new();
        core::mem::swap(&mut self.files, &mut files);
        match found {
            Some(at) => {
                proof {
                    lemma_replace(before, at as int, file);
                }
                files.set(at, file);
            },
            None => {
                files.push(file);
                assert(files@.drop_last() =~= before);
            },
        }
        core::mem::swap(&mut self.files, &mut files);
    }

    /// The names of the files, each once.
    pub fn file_names(&self) -> (names: Vec<String>)
        ensures
            forall|name: Seq<char>|
                self@.contains_key(name) <==> names.deep_view().contains(name),
            names.deep_view().no_duplicates(),
    {
        proof {
            use_type_invariant(self);
        }
        let mut names: Vec<String> = Vec::new();
        let mut i: usize = 0;
        while i < self.files.len()
            invariant
                i <= self.files.len(),
                names.len() == i,
                forall|j: int| 0 <= j < i ==> (#[trigger] names[j])@ == self.files[j].name@,
            decreases self.files.len() - i,
        {
            names.push(self.files[i].name.clone());
            i = i + 1;
        }
        proof {
            let listed = names.deep_view();
            assert forall|i: int, j: int| 0 <= i < listed.len() && 0 <= j < listed.len() && i
                != j implies listed[i] != listed[j] by {
                assert(listed[i] == self.files[i].name@);
                assert(listed[j] == self.files[j].name@);
            }
            assert forall|name: Seq<char>| self@.contains_key(name) <==> listed.contains(
                name,
            ) by {
                if listed.contains(name) {
                    let j = choose|j: int| 0 <= j < listed.len() && listed[j] == name;
                    assert(names[j]@ == name);
                    lemma_last_of(self.files@, name, j);
                    let at = last_of(self.files@, name);
                    lemma_present(self.files@, name, at);
                } else {
                    assert forall|j: int| 0 <= j < self.files.len() implies (
                    #[trigger] self.files@[j]).name@ != name by {
                        assert(listed[j] == names[j]@);
                    }
                    lemma_absent(self.files@, name);
                }
            }
        }
        names
    }
}

/// The last position at which a file is called `name`.
spec fn last_of(files: Seq<TableFile>, name: Seq<char>) -> int
    decreases files.len(),
{
    if files.len() == 0 {
        -1
    } else if files.last().name@ == name {
        files.len() - 1
    } else {
        last_of(files.drop_last(), name)
    }
}

proof fn lemma_last_of(files: Seq<TableFile>, name: Seq<char>, at: int)
    requires
        0 <= at < files.len(),
        files[at].name@ == name,
    ensures
        at <= last_of(files, name) < files.len(),
        files[last_of(files, name)].name@ == name,
        absent_from(files, name, last_of(files, name) + 1),
    decreases files.len(),
{
    if files.last().name@ != name {
        let shorter = files.drop_last();
        assert(shorter[at] == files[at]);
        lemma_last_of(shorter, name, at);
        let last = last_of(shorter, name);
        assert(shorter[last] == files[last]);
        assert forall|j: int| last + 1 <= j < files.len() implies (#[trigger] files[j]).name@
            != name by {
            if j < shorter.len() {
                assert(shorter[j] == files[j]);
            }
        }
    }
}

} // verus!
