//! The favorites list: an ordered sequence of paths in which no path is meant
//! to occur twice.

use crate::error::{Error, ErrorView};
use vstd::prelude::*;

verus! {

/// What was found where the favorites document is kept.
#[derive(Debug, Clone, PartialEq, Eq)]
pub enum Stored {
    /// There is no document yet.
    Missing,
    /// The document exists but could not be read; the message says why.
    Unreadable(String),
    /// The document was read but is not of the expected shape.
    Malformed(String),
    /// The document's list of paths, in the order in which it holds them.
    Document(Vec<String>),
}

/// A [`Stored`] with its texts as sequences of characters.
pub enum StoredView {
    Missing,
    Unreadable(Seq<char>),
    Malformed(Seq<char>),
    Document(Seq<Seq<char>>),
}

impl View for Stored {
    type V = StoredView;

    open spec fn view(&self) -> StoredView {
        match *self {
            Stored::Missing => StoredView::Missing,
            Stored::Unreadable(m) => StoredView::Unreadable(m@),
            Stored::Malformed(m) => StoredView::Malformed(m@),
            Stored::Document(files) => StoredView::Document(files.deep_view()),
        }
    }
}

/// The favorites, in the order in which they were added.
#[derive(Debug, Clone, PartialEq, Eq)]
pub struct Favorites {
    files: Vec<String>,
}

/// The sequence `s` followed by `path`, unless `s` holds `path` already.
pub open spec fn with_path(s: Seq<Seq<char>>, path: Seq<char>) -> Seq<Seq<char>> {
    if s.contains(path) {
        s
    } else {
        s.push(path)
    }
}

/// The sequence `s` without the entries equal to `path`, the others in order.
pub open spec fn without_path(s: Seq<Seq<char>>, path: Seq<char>) -> Seq<Seq<char>> {
    s.filter(|p: Seq<char>| p != path)
}

/// The list that a stored document stands for: empty where there is no
/// document, the document's paths as they are where there is one, and an
/// error where it could not be read or understood.
pub open spec fn loaded(stored: StoredView) -> Result<Seq<Seq<char>>, ErrorView> {
    match stored {
        StoredView::Missing => Ok(Seq::empty()),
        StoredView::Unreadable(m) => Err(ErrorView::IoError(m)),
        StoredView::Malformed(m) => Err(ErrorView::SerializationError(m)),
        StoredView::Document(files) => Ok(files),
    }
}

/// The document that is written for a list: its paths, in order.
pub open spec fn saved(files: Seq<Seq<char>>) -> StoredView {
    StoredView::Document(files)
}

/// What adding `path` to the stored list comes to: the document that is
/// written in place of the stored one. It holds the stored list, with the
/// path at its end where the list did not hold it, and it is written whether
/// or not the path is new. Nothing is written where the stored document
/// could not be read or understood.
pub open spec fn added(stored: StoredView, path: Seq<char>) -> Result<StoredView, ErrorView> {
    match loaded(stored) {
        Ok(files) => Ok(saved(with_path(files, path))),
        Err(e) => Err(e),
    }
}

/// What removing `path` from the stored list comes to: the document that is
/// written in place of the stored one. It holds the stored list without the
/// path, and it is written whether or not the list held the path. Nothing is
/// written where the stored document could not be read or understood.
pub open spec fn removed(stored: StoredView, path: Seq<char>) -> Result<StoredView, ErrorView> {
    match loaded(stored) {
        Ok(files) => Ok(saved(without_path(files, path))),
        Err(e) => Err(e),
    }
}

/// How often `path` occurs in `s`.
pub open spec fn occurrences(s: Seq<Seq<char>>, path: Seq<char>) -> nat {
    s.filter(|p: Seq<char>| p == path).len()
}

impl View for Favorites {
    type V = Seq<Seq<char>>;

    closed spec fn view(&self) -> Seq<Seq<char>> {
        self.files.deep_view()
    }
}

impl Favorites {
    /// No path occurs twice.
    pub open spec fn is_set(&self) -> bool {
        self@.no_duplicates()
    }

    /// The empty list.
    pub fn new() -> (r: Self)
        ensures
            r@ == Seq::<Seq<char>>::empty(),
            r.is_set(),
    {
        let r = Favorites { files: Vec::new() };
        assert(r.files.deep_view() =~= Seq::<Seq<char>>::empty());
        r
    }

    /// The list that a stored document stands for: empty where there is no
    /// document, the document's paths as they are where there is one, and an
    /// error where it could not be read or understood.
    pub fn load(stored: Stored) -> (r: Result<Self, Error>)
        ensures
            match r {
                Ok(favorites) => loaded(stored@) == Ok::<Seq<Seq<char>>, ErrorView>(favorites@),
                Err(e) => loaded(stored@) == Err::<Seq<Seq<char>>, ErrorView>(e@),
            },
    {
        match stored {
            Stored::Missing => Ok(Favorites::new()),
            Stored::Unreadable(m) => Err(Error::IoError(m)),
            Stored::Malformed(m) => Err(Error::SerializationError(m)),
            Stored::Document(files) => Ok(Favorites { files }),
        }
    }

    /// The document to write for the list: its paths, in order.
    pub fn save(&self) -> (r: Stored)
        ensures
            r@ == saved(self@),
    {
        Stored::Document(self.files.clone())
    }

    /// The paths, in order.
    pub fn files(&self) -> (r: &Vec<String>)
        ensures
            r.deep_view() == self@,
    {
        &self.files
    }

    /// How many paths the list holds.
    pub fn len(&self) -> (r: usize)
        ensures
            r == self@.len(),
    {
        self.files.len()
    }

    /// Whether `path` is in the list.
    pub fn contains(&self, path: &str) -> (r: bool)
        ensures
            r == self@.contains(path@),
    {
        let wanted = path.to_owned();
        let mut i: usize = 0;
        while i < self.files.len()
            invariant
                i <= self.files.len(),
                wanted@ == path@,
                forall|k: int| 0 <= k < i ==> self@[k] != path@,
            decreases self.files.len() - i,
        {
            if self.files[i] == wanted {
                assert(self@[i as int] == path@);
                return true;
            }
            i += 1;
        }
        false
    }

    /// Appends `path` unless the list holds it already, and says whether the
    /// list changed.
    pub fn add(&mut self, path: String) -> (changed: bool)
        ensures
            changed == !old(self)@.contains(path@),
            final(self)@ == with_path(old(self)@, path@),
            old(self).is_set() ==> final(self).is_set(),
    {
        if self.contains(path.as_str()) {
            false
        } else {
            self.files.push(path);
            assert(self.files.deep_view() =~= old(self).files.deep_view().push(path@));
            true
        }
    }

    /// Removes every entry equal to `path` and says whether the list changed.
    pub fn remove(&mut self, path: &str) -> (changed: bool)
        ensures
            changed == old(self)@.contains(path@),
            final(self)@ == without_path(old(self)@, path@),
            old(self).is_set() ==> final(self).is_set(),
    {
        let wanted = path.to_owned();
        let mut kept: Vec<String> = Vec::new();
        let mut changed = false;
        let mut i: usize = 0;
        assert(self@.take(0) =~= Seq::<Seq<char>>::empty());
        assert(kept.deep_view() =~= Seq::<Seq<char>>::empty());
        while i < self.files.len()
            invariant
                i <= self.files.len(),
                wanted@ == path@,
                *self == *old(self),
                kept.deep_view() == without_path(self@.take(i as int), path@),
                changed == self@.take(i as int).contains(path@),
            decreases self.files.len() - i,
        {
            let ghost before = self@.take(i as int);
            let ghost after = self@.take(i + 1);
            proof {
                assert(after.drop_last() =~= before);
                assert(after.last() == self@[i as int]);
                reveal(Seq::filter);
            }
            if self.files[i] == wanted {
                changed = true;
                assert(after[i as int] == path@);
            } else {
                let ghost shorter = kept.deep_view();
                kept.push(self.files[i].clone());
                assert(kept.deep_view() =~= shorter.push(self@[i as int]));
                assert(after.contains(path@) == before.contains(path@)) by {
                    if after.contains(path@) {
                        let k = choose|k: int| 0 <= k < after.len() && after[k] == path@;
                        assert(before[k] == path@);
                    }
                    if before.contains(path@) {
                        let k = choose|k: int| 0 <= k < before.len() && before[k] == path@;
                        assert(after[k] == path@);
                    }
                }
            }
            i += 1;
        }
        proof {
            assert(self@.take(self@.len() as int) =~= self@);
            if old(self).is_set() {
                lemma_without_keeps_set(old(self)@, path@);
            }
        }
        self.files = kept;
        changed
    }
}

/// What a command that changes the favorites asks of the caller: to write
/// the whole stored document again, with this list.
#[derive(Debug, Clone, PartialEq, Eq)]
pub struct Rewrite {
    /// The list to write.
    pub favorites: Favorites,
}

impl View for Rewrite {
    type V = StoredView;

    /// The document that is to be written.
    open spec fn view(&self) -> StoredView {
        saved(self.favorites@)
    }
}

/// The stored favorites, in order.
pub fn get_favorites(stored: Stored) -> (r: Result<Vec<String>, Error>)
    ensures
        match r {
            Ok(files) => loaded(stored@) == Ok::<Seq<Seq<char>>, ErrorView>(files.deep_view()),
            Err(e) => loaded(stored@) == Err::<Seq<Seq<char>>, ErrorView>(e@),
        },
{
    match Favorites::load(stored) {
        Ok(favorites) => Ok(favorites.files),
        Err(e) => Err(e),
    }
}

/// Adds `file_path` to the stored favorites unless they hold it already.
/// The whole document is written again, whether or not the list has changed.
pub fn add_favorite(stored: Stored, file_path: String) -> (r: Result<Rewrite, Error>)
    ensures
        match r {
            Ok(rewrite) => added(stored@, file_path@) == Ok::<StoredView, ErrorView>(rewrite@),
            Err(e) => added(stored@, file_path@) == Err::<StoredView, ErrorView>(e@),
        },
{
    match Favorites::load(stored) {
        Ok(favorites) => {
            let mut favorites = favorites;
            favorites.add(file_path);
            Ok(Rewrite { favorites })
        },
        Err(e) => Err(e),
    }
}

/// Removes `file_path` from the stored favorites. The whole document is
/// written again, whether or not the list held the path.
pub fn remove_favorite(stored: Stored, file_path: &str) -> (r: Result<Rewrite, Error>)
    ensures
        match r {
            Ok(rewrite) => removed(stored@, file_path@) == Ok::<StoredView, ErrorView>(rewrite@),
            Err(e) => removed(stored@, file_path@) == Err::<StoredView, ErrorView>(e@),
        },
{
    match Favorites::load(stored) {
        Ok(favorites) => {
            let mut favorites = favorites;
            favorites.remove(file_path);
            Ok(Rewrite { favorites })
        },
        Err(e) => Err(e),
    }
}

/// Adding a path twice is adding it once: the second time changes nothing.
pub proof fn lemma_add_is_idempotent(s: Seq<Seq<char>>, path: Seq<char>)
    ensures
        with_path(s, path).contains(path),
        with_path(with_path(s, path), path) == with_path(s, path),
{
    if !s.contains(path) {
        assert(s.push(path)[s.len() as int] == path);
    }
}

/// Adding a path that the stored list holds writes the stored list again,
/// as it is.
pub proof fn lemma_add_of_stored_path_rewrites(stored: StoredView, path: Seq<char>)
    requires
        loaded(stored) is Ok,
        loaded(stored)->Ok_0.contains(path),
    ensures
        added(stored, path) == Ok::<StoredView, ErrorView>(saved(loaded(stored)->Ok_0)),
        loaded(added(stored, path)->Ok_0) == loaded(stored),
{
}

/// Adding a path to a list without duplicates leaves none, and the path
/// occurs in it exactly once.
pub proof fn lemma_add_keeps_set(s: Seq<Seq<char>>, path: Seq<char>)
    requires
        s.no_duplicates(),
    ensures
        with_path(s, path).no_duplicates(),
        occurrences(with_path(s, path), path) == 1,
{
    let t = with_path(s, path);
    lemma_add_is_idempotent(s, path);
    lemma_occurrences(t, path);
}

/// In a list without duplicates a path occurs once or not at all.
pub proof fn lemma_occurrences(s: Seq<Seq<char>>, path: Seq<char>)
    requires
        s.no_duplicates(),
    ensures
        occurrences(s, path) == if s.contains(path) {
            1nat
        } else {
            0nat
        },
    decreases s.len(),
{
    reveal(Seq::filter);
    if s.len() > 0 {
        let front = s.drop_last();
        lemma_occurrences(front, path);
        if s.last() == path {
            assert(s[s.len() - 1] == path);
            if front.contains(path) {
                let k = choose|k: int| 0 <= k < front.len() && front[k] == path;
                assert(s[k] == s[s.len() - 1]);
            }
        } else {
            if s.contains(path) {
                let k = choose|k: int| 0 <= k < s.len() && s[k] == path;
                assert(front[k] == path);
            }
            if front.contains(path) {
                let k = choose|k: int| 0 <= k < front.len() && front[k] == path;
                assert(s[k] == path);
            }
        }
    }
}

/// Removing a path that the list does not hold leaves the list as it is.
pub proof fn lemma_remove_absent(s: Seq<Seq<char>>, path: Seq<char>)
    requires
        !s.contains(path),
    ensures
        without_path(s, path) == s,
    decreases s.len(),
{
    reveal(Seq::filter);
    if s.len() > 0 {
        let front = s.drop_last();
        assert(s[s.len() - 1] == s.last());
        assert forall|k: int| 0 <= k < front.len() implies front[k] != path by {
            assert(s[k] == front[k]);
        }
        lemma_remove_absent(front, path);
        assert(front.push(s.last()) =~= s);
    }
}

/// After a path was removed the list does not hold it.
pub proof fn lemma_removed_is_absent(s: Seq<Seq<char>>, path: Seq<char>)
    ensures
        !without_path(s, path).contains(path),
{
    if without_path(s, path).contains(path) {
        let k = choose|k: int|
            0 <= k < without_path(s, path).len() && without_path(s, path)[k] == path;
        lemma_without_entries(s, path, k);
    }
}

/// What is written for a list is read back as that list.
pub proof fn lemma_save_load_round_trip(files: Seq<Seq<char>>)
    ensures
        loaded(saved(files)) == Ok::<Seq<Seq<char>>, ErrorView>(files),
{
}

/// Every entry of `without_path(s, path)` is an entry of `s` other than `path`.
pub proof fn lemma_without_entries(s: Seq<Seq<char>>, path: Seq<char>, i: int)
    requires
        0 <= i < without_path(s, path).len(),
    ensures
        without_path(s, path)[i] != path,
        s.contains(without_path(s, path)[i]),
    decreases s.len(),
{
    reveal(Seq::filter);
    if s.len() > 0 {
        let shorter = without_path(s.drop_last(), path);
        if i < shorter.len() {
            lemma_without_entries(s.drop_last(), path, i);
            let k = choose|k: int| 0 <= k < s.drop_last().len() && s.drop_last()[k] == shorter[i];
            assert(s[k] == shorter[i]);
        } else {
            assert(s[s.len() - 1] == s.last());
        }
    }
}

/// Removing a path from a sequence without duplicates leaves none.
pub proof fn lemma_without_keeps_set(s: Seq<Seq<char>>, path: Seq<char>)
    requires
        s.no_duplicates(),
    ensures
        without_path(s, path).no_duplicates(),
    decreases s.len(),
{
    reveal(Seq::filter);
    if s.len() > 0 {
        let front = s.drop_last();
        assert(front.no_duplicates());
        lemma_without_keeps_set(front, path);
        let shorter = without_path(front, path);
        if s.last() != path {
            assert(without_path(s, path) == shorter.push(s.last()));
            assert forall|i: int| 0 <= i < shorter.len() implies shorter[i] != s.last() by {
                lemma_without_entries(front, path, i);
                let k = choose|k: int| 0 <= k < front.len() && front[k] == shorter[i];
                assert(s[k] == shorter[i]);
                assert(s[s.len() - 1] == s.last());
            }
        } else {
            assert(without_path(s, path) == shorter);
        }
    }
}

} // verus!
