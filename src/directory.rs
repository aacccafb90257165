//! The served directory's files, as plain records, and the choice of names for
//! uploads.
use vstd::prelude::*;
use vstd::string::StringExecFns;
use crate::text::{decimal, lemma_decimal_injective, lemma_decimal_len, push_decimal};

verus! {

/// std's owned filesystem path, carried as it is.
#[verifier::external_type_specification]
#[verifier::external_body]
pub struct ExPathBuf(std::path::PathBuf);

pub struct Directory {
    pub root: std::path::PathBuf,
}

/// What the server shows of one file.
pub struct FileMeta {
    pub name: String,
    pub url: String,
    pub size: u64,
    pub modified: String,
    pub modified_raw: u64,
}

/// Some file in `files` is called `name`.
pub open spec fn name_taken(files: Seq<FileMeta>, name: Seq<char>) -> bool {
    exists|i: int| 0 <= i < files.len() && (#[trigger] files[i]).name@ == name
}

/// The `k`-th name tried for an upload called `name`: the name itself, then
/// `name (1)`, `name (2)`, and so on.
pub open spec fn numbered_name(name: Seq<char>, k: nat) -> Seq<char> {
    if k == 0 {
        name
    } else {
        name + " ("@ + decimal(k) + ")"@
    }
}

/// Different numbers give different names.
proof fn lemma_numbered_name_injective(name: Seq<char>, j: nat, k: nat)
    requires
        numbered_name(name, j) == numbered_name(name, k),
    ensures
        j == k,
{
    reveal_strlit(" (");
    reveal_strlit(")");
    lemma_decimal_len(j);
    lemma_decimal_len(k);
    if j > 0 && k > 0 {
        let a = numbered_name(name, j);
        assert(decimal(j) =~= a.subrange(name.len() as int + 2, a.len() - 1));
        assert(decimal(k) =~= a.subrange(name.len() as int + 2, a.len() - 1));
        lemma_decimal_injective(j, k);
    } else if j > 0 || k > 0 {
        assert(numbered_name(name, j).len() != numbered_name(name, k).len());
    }
}

impl Directory {
    pub fn new(root: std::path::PathBuf) -> (r: Directory)
        ensures
            r.root == root,
    {
        Directory { root }
    }

    /// The path of the file called `name` in the directory.
    ///
    /// Relies on `Path::join` to put `name` after the root (an absolute `name` replaces
    /// it); nothing about the resulting path is assumed.
    #[verifier::external_body]
    pub fn full_path(&self, name: &str) -> std::path::PathBuf {
        self.root.join(name)
    }

    /// The first file in `files` called `name`, if there is one.
    pub fn get_resource<'a>(&self, name: &str, files: &'a Vec<FileMeta>) -> (r: Option<
        &'a FileMeta,
    >)
        ensures
            match r {
                Some(f) => exists|i: int|
                    0 <= i < files@.len() && files@[i] == *f && f.name@ == name@ && forall|j: int|
                        0 <= j < i ==> (#[trigger] files@[j]).name@ != name@,
                None => !name_taken(files@, name@),
            },
    {
        let wanted = String::from_str(name);
        let mut i: usize = 0;
        while i < files.len()
            invariant
                i <= files@.len(),
                wanted@ == name@,
                forall|j: int| 0 <= j < i ==> (#[trigger] files@[j]).name@ != name@,
            decreases files@.len() - i,
        {
            if files[i].name == wanted {
                return Some(&files[i]);
            }
            i = i + 1;
        }
        None
    }

    /// Whether some file in `files` is called `name`.
    fn name_exists(&self, name: &String, files: &Vec<FileMeta>) -> (r: bool)
        ensures
            r == name_taken(files@, name@),
    {
        let mut i: usize = 0;
        while i < files.len()
            invariant
                i <= files@.len(),
                forall|j: int| 0 <= j < i ==> (#[trigger] files@[j]).name@ != name@,
            decreases files@.len() - i,
        {
            if files[i].name == *name {
                return true;
            }
            i = i + 1;
        }
        false
    }

    /// A name for an upload called `name` that no file in `files` has: `name` itself,
    /// or else the first of `name (1)`, `name (2)`, ... that is free.
    pub fn get_available_name(&self, name: &str, files: &Vec<FileMeta>) -> (r: String)
        ensures
            exists|k: nat|
                r@ == numbered_name(name@, k) && forall|j: nat|
                    j < k ==> name_taken(files@, #[trigger] numbered_name(name@, j)),
            !name_taken(files@, r@),
    {
        let ghost names = files@.map_values(|f: FileMeta| f.name@).to_set();
        let mut aname = String::from_str(name);
        let mut num: usize = 0;
        let n_files = files.len();
        let ghost mut tried: Set<Seq<char>> = Set::empty();
        proof {
            files@.map_values(|f: FileMeta| f.name@).lemma_cardinality_of_set();
        }
        while self.name_exists(&aname, files)
            invariant
                aname@ == numbered_name(name@, num as nat),
                forall|j: nat| j < num ==> name_taken(files@, #[trigger] numbered_name(name@, j)),
                tried.finite(),
                tried.len() == num,
                forall|x: Seq<char>| #[trigger] tried.contains(x) ==> exists|j: nat|
                    j < num && x == numbered_name(name@, j),
                forall|j: nat| j < num ==> tried.contains(#[trigger] numbered_name(name@, j)),
                tried.subset_of(names),
                names == files@.map_values(|f: FileMeta| f.name@).to_set(),
                names.len() <= files@.len(),
                n_files == files@.len(),
            decreases files@.len() - num,
        {
            proof {
                let x = numbered_name(name@, num as nat);
                let i = choose|i: int| 0 <= i < files@.len() && (#[trigger] files@[i]).name@ == x;
                assert(files@.map_values(|f: FileMeta| f.name@)[i] == x);
                assert(names.contains(x));
                if tried.contains(x) {
                    let j = choose|j: nat| j < num && x == numbered_name(name@, j);
                    lemma_numbered_name_injective(name@, j, num as nat);
                }
                tried = tried.insert(x);
                vstd::set_lib::lemma_len_subset(tried, names);
                assert(num + 1 <= files@.len());
            }
            num = num + 1;
            let mut next = String::from_str(name);
            next.append(" (");
            push_decimal(&mut next, num as u64);
            next.append(")");
            aname = next;
        }
        aname
    }
}

} // verus!
