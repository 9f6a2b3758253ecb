//! Directory listings: the subfolders of one directory, in their listed order.
use crate::order::{
    compare_keys, is_hidden_name, is_ordered, key_of, lemma_key_lt_total, name_lt, SortKey,
};
use crate::text::{chars_of, lemma_text_lt_total, lowercase, lowercase_of, text_le};
use itertools::Itertools;
use std::cmp::Ordering;
use vstd::prelude::*;

verus! {

/// The texts of a sequence of strings.
pub open spec fn texts(strings: Seq<String>) -> Seq<Seq<char>> {
    Seq::new(strings.len(), |i: int| strings[i]@)
}

/// One child of a directory as the file system reports it.
#[derive(Clone, Debug)]
pub struct DirectoryChild {
    pub name: String,
    pub is_directory: bool,
}

/// The names of the directories among `children`, in the order in which they stand there.
pub open spec fn subfolder_names(children: Seq<DirectoryChild>) -> Seq<Seq<char>>
    decreases children.len(),
{
    if children.len() == 0 {
        Seq::empty()
    } else if children.last().is_directory {
        subfolder_names(children.drop_last()).push(children.last().name@)
    } else {
        subfolder_names(children.drop_last())
    }
}

/// A subfolder: its name, and whether that name marks it as hidden.
pub struct DirectoryEntry {
    name: String,
    is_hidden: bool,
}

impl View for DirectoryEntry {
    type V = Seq<char>;

    closed spec fn view(&self) -> Seq<char> {
        self.name@
    }
}

/// The names of a sequence of entries.
pub open spec fn entry_names(entries: Seq<DirectoryEntry>) -> Seq<Seq<char>> {
    Seq::new(entries.len(), |i: int| entries[i]@)
}

impl DirectoryEntry {
    #[verifier::type_invariant]
    spec fn consistent(&self) -> bool {
        self.is_hidden == is_hidden_name(self.name@)
    }

    /// The entry of the subfolder called `name`.
    pub fn new(name: String) -> (entry: Self)
        ensures
            entry@ == name@,
    {
        let is_hidden = !name.as_str().is_empty() && name.as_str().get_char(0) == '.';
        DirectoryEntry { name, is_hidden }
    }

    /// The subfolder's name.
    pub fn name(&self) -> (name: &String)
        ensures
            name@ == self@,
    {
        &self.name
    }

    /// Whether the name begins with a period.
    pub fn is_hidden(&self) -> (hidden: bool)
        ensures
            hidden == is_hidden_name(self@),
    {
        proof {
            use_type_invariant(self);
        }
        self.is_hidden
    }

    /// The key by which the entry is ordered.
    pub fn sort_key(&self) -> (key: SortKey)
        ensures
            key@ == key_of(self@),
    {
        proof {
            use_type_invariant(self);
        }
        let folded = lowercase(self.name.as_str());
        SortKey {
            hidden: self.is_hidden,
            folded: chars_of(folded.as_str()),
            name: chars_of(self.name.as_str()),
        }
    }
}

/// Compares two entries by their keys.
pub fn compare_entries(a: &DirectoryEntry, b: &DirectoryEntry) -> (o: Ordering)
    ensures
        (o is Less) == name_lt(a@, b@),
        (o is Equal) == (a@ == b@),
        (o is Greater) == name_lt(b@, a@),
{
    let key_a = a.sort_key();
    let key_b = b.sort_key();
    compare_keys(&key_a, &key_b)
}

/// Sorts entries with `itertools::Itertools::sorted_by`, which collects them
/// and sorts the collection with the comparison it is given, here
/// `compare_entries`. Trusted: the result holds the same entries as the
/// argument, each as often, in an order in which no entry stands after one
/// that the comparison puts behind it. The comparison is a total order
/// (`lemma_name_lt_total_order`), as the sort asks.
#[verifier::external_body]
fn sort_entries(entries: Vec<DirectoryEntry>) -> (sorted: Vec<DirectoryEntry>)
    ensures
        entry_names(sorted@).to_multiset() == entry_names(entries@).to_multiset(),
        is_ordered(entry_names(sorted@)),
{
    entries.into_iter().sorted_by(|a, b| compare_entries(a, b)).collect()
}

/// The subfolders among `children`, by name, in their listed order: visible
/// names before hidden ones, each group by lowercase form and then by name.
pub fn get_sorted_subfolder(children: &Vec<DirectoryChild>) -> (names: Vec<String>)
    ensures
        texts(names@).to_multiset() == subfolder_names(children@).to_multiset(),
        is_ordered(texts(names@)),
{
    let mut entries: Vec<DirectoryEntry> = Vec::new();
    let mut i: usize = 0;
    while i < children.len()
        invariant
            i <= children.len(),
            entry_names(entries@) == subfolder_names(children@.take(i as int)),
        decreases children.len() - i,
    {
        proof {
            assert(children@.take(i + 1).drop_last() == children@.take(i as int));
        }
        if children[i].is_directory {
            let entry = DirectoryEntry::new(children[i].name.clone());
            entries.push(entry);
            proof {
                assert(entry_names(entries@) =~= subfolder_names(children@.take(i as int)).push(
                    entry@,
                ));
            }
        }
        i += 1;
    }
    proof {
        assert(children@.take(i as int) == children@);
    }
    let sorted = sort_entries(entries);
    let mut names: Vec<String> = Vec::new();
    let mut j: usize = 0;
    while j < sorted.len()
        invariant
            j <= sorted.len(),
            names@.len() == j,
            texts(names@) == entry_names(sorted@).take(j as int),
        decreases sorted.len() - j,
    {
        let ghost before = texts(names@);
        names.push(sorted[j].name().clone());
        proof {
            assert forall|k: int| 0 <= k < names@.len() implies texts(names@)[k] == entry_names(
                sorted@,
            ).take(j + 1)[k] by {
                if k < j {
                    assert(texts(names@)[k] == before[k]);
                }
            }
            assert(texts(names@) =~= entry_names(sorted@).take(j + 1));
        }
        j += 1;
    }
    proof {
        assert(entry_names(sorted@).take(j as int) == entry_names(sorted@));
    }
    names
}

/// What a listing holds: the directory's path and the names of its
/// subfolders in their listed order.
pub struct ListingView {
    pub path: Seq<char>,
    pub names: Seq<Seq<char>>,
}

/// The subfolders of one directory, in their listed order.
pub struct DirectoryListing {
    path: String,
    ordered_names: Vec<String>,
}

impl View for DirectoryListing {
    type V = ListingView;

    closed spec fn view(&self) -> ListingView {
        ListingView { path: self.path@, names: texts(self.ordered_names@) }
    }
}

impl DirectoryListing {
    #[verifier::type_invariant]
    spec fn ordered(&self) -> bool {
        is_ordered(texts(self.ordered_names@))
    }

    /// The listing of no directory: no path, no names.
    pub fn empty() -> (listing: Self)
        ensures
            listing@.path == Seq::<char>::empty(),
            listing@.names == Seq::<Seq<char>>::empty(),
    {
        let listing = DirectoryListing { path: String::new(), ordered_names: Vec::new() };
        proof {
            assert(texts(listing.ordered_names@) =~= Seq::<Seq<char>>::empty());
        }
        listing
    }

    /// The path of the directory that was listed.
    pub fn path(&self) -> (path: &String)
        ensures
            path@ == self@.path,
    {
        &self.path
    }

    /// The names of the subfolders, in their listed order.
    pub fn ordered_names(&self) -> (names: &Vec<String>)
        ensures
            texts(names@) == self@.names,
            is_ordered(self@.names),
    {
        proof {
            use_type_invariant(self);
        }
        &self.ordered_names
    }

    /// The number of subfolders.
    pub fn len(&self) -> (n: usize)
        ensures
            n == self@.names.len(),
    {
        self.ordered_names.len()
    }

    /// Whether the listing holds no subfolder.
    pub fn is_empty(&self) -> (none: bool)
        ensures
            none == (self@.names.len() == 0),
    {
        self.ordered_names.len() == 0
    }
}

/// Whether a listing can be made of `contents` for the directory at `path`:
/// the path is not empty and the directory could be read.
pub open spec fn is_listable(path: Seq<char>, contents: Option<&Vec<DirectoryChild>>) -> bool {
    path.len() > 0 && contents is Some
}

/// Lists the directory at `directory_path`, whose children are `contents`, or
/// `None` where the directory does not exist or cannot be read. Such a
/// directory, and one with an empty path, has an empty listing.
pub fn list(directory_path: &str, contents: Option<&Vec<DirectoryChild>>) -> (listing:
    DirectoryListing)
    ensures
        listing@.path == directory_path@,
        is_ordered(listing@.names),
        is_listable(directory_path@, contents) ==> listing@.names.to_multiset()
            == subfolder_names(contents.unwrap()@).to_multiset(),
        !is_listable(directory_path@, contents) ==> listing@.names == Seq::<Seq<char>>::empty(),
{
    let ordered_names = match contents {
        Some(children) if !directory_path.is_empty() => get_sorted_subfolder(children),
        _ => Vec::new(),
    };
    proof {
        if !is_listable(directory_path@, contents) {
            assert(texts(ordered_names@) =~= Seq::<Seq<char>>::empty());
        }
    }
    DirectoryListing { path: directory_path.to_owned(), ordered_names }
}

/// In an ordered sequence of names no hidden name stands before a visible
/// one, and of two names of one group the earlier has the lowercase form that
/// comes first, or, where the lowercase forms are equal, is itself the name
/// that comes first.
pub proof fn lemma_ordered_names(names: Seq<Seq<char>>, i: int, j: int)
    requires
        is_ordered(names),
        0 <= i < j < names.len(),
    ensures
        is_hidden_name(names[i]) ==> is_hidden_name(names[j]),
        is_hidden_name(names[i]) == is_hidden_name(names[j]) ==> text_le(
            lowercase_of(names[i]),
            lowercase_of(names[j]),
        ),
        is_hidden_name(names[i]) == is_hidden_name(names[j]) && lowercase_of(names[i])
            == lowercase_of(names[j]) ==> text_le(names[i], names[j]),
{
    assert(!name_lt(names[j], names[i]));
    lemma_key_lt_total(key_of(names[j]), key_of(names[i]));
    lemma_text_lt_total(lowercase_of(names[i]), lowercase_of(names[j]));
    lemma_text_lt_total(names[i], names[j]);
}

} // verus!
