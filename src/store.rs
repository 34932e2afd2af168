use vstd::prelude::*;
use crate::model::{Genre, GenreLink, InsertableMedia, Library, Media, MediaFile};

verus! {

/// The catalogue: libraries, technical records, canonical media, genres and
/// their links. Each record's id is its position in its table.
pub struct Store {
    pub libraries: Vec<Library>,
    pub media_files: Vec<MediaFile>,
    pub media: Vec<Media>,
    pub genres: Vec<Genre>,
    pub genre_media: Vec<GenreLink>,
}

impl Store {
    /// The store's invariant: ids are positions, paths are unique, a
    /// `(library, name)` pair names at most one media record, genre names
    /// are unique, links are unique, and every reference points into its table.
    pub open spec fn wf(&self) -> bool {
        &&& forall|i: int| 0 <= i < self.media_files@.len() ==> #[trigger] self.media_files@[i].id == i
        &&& forall|i: int, j: int|
            0 <= i < self.media_files@.len() && 0 <= j < self.media_files@.len() && i != j
                ==> #[trigger] self.media_files@[i].target_file@ != #[trigger] self.media_files@[j].target_file@
        &&& forall|i: int| 0 <= i < self.media_files@.len()
                && (#[trigger] self.media_files@[i]).media_id is Some
                ==> self.media_files@[i].media_id->0 < self.media@.len()
        &&& forall|i: int| 0 <= i < self.media@.len() ==> #[trigger] self.media@[i].id == i
        &&& forall|i: int, j: int|
            0 <= i < self.libraries@.len() && 0 <= j < self.libraries@.len() && i != j
                ==> #[trigger] self.libraries@[i].id != #[trigger] self.libraries@[j].id
        &&& forall|i: int, j: int|
            0 <= i < self.media@.len() && 0 <= j < self.libraries@.len()
                && (#[trigger] self.media@[i]).data.library_id == (#[trigger] self.libraries@[j]).id
                ==> self.media@[i].data.media_type == self.libraries@[j].media_type
        &&& forall|i: int, j: int|
            0 <= i < self.media@.len() && 0 <= j < self.media@.len() && i != j
                ==> !Self::same_key(#[trigger] self.media@[i], #[trigger] self.media@[j])
        &&& forall|i: int| 0 <= i < self.genres@.len() ==> #[trigger] self.genres@[i].id == i
        &&& forall|i: int, j: int|
            0 <= i < self.genres@.len() && 0 <= j < self.genres@.len() && i != j
                ==> #[trigger] self.genres@[i].name@ != #[trigger] self.genres@[j].name@
        &&& forall|i: int, j: int|
            0 <= i < self.genre_media@.len() && 0 <= j < self.genre_media@.len() && i != j
                ==> #[trigger] self.genre_media@[i] != #[trigger] self.genre_media@[j]
        &&& forall|i: int| 0 <= i < self.genre_media@.len() ==> {
                &&& (#[trigger] self.genre_media@[i]).genre_id < self.genres@.len()
                &&& self.genre_media@[i].media_id < self.media@.len()
            }
    }

    pub open spec fn same_key(a: Media, b: Media) -> bool {
        a.data.library_id == b.data.library_id && a.data.name@ == b.data.name@
    }

    /// `a` and `b` are the same record but perhaps for their link.
    pub open spec fn same_but_link(a: MediaFile, b: MediaFile) -> bool {
        &&& a.id == b.id
        &&& a.library_id == b.library_id
        &&& a.target_file == b.target_file
        &&& a.raw_name == b.raw_name
        &&& a.raw_year == b.raw_year
        &&& a.season == b.season
        &&& a.episode == b.episode
        &&& a.probe == b.probe
    }

    /// Some technical record has this path.
    pub open spec fn has_file(&self, path: Seq<char>) -> bool {
        exists|i: int| 0 <= i < self.media_files@.len() && #[trigger] self.media_files@[i].target_file@ == path
    }

    /// The number of elements of `s` that satisfy `p`.
    pub open spec fn count_where<A>(s: Seq<A>, p: spec_fn(A) -> bool) -> nat
        decreases s.len(),
    {
        if s.len() == 0 {
            0
        } else {
            Self::count_where(s.drop_last(), p) + if p(s.last()) { 1nat } else { 0 }
        }
    }

    pub open spec fn path_is(path: Seq<char>) -> spec_fn(MediaFile) -> bool {
        |f: MediaFile| f.target_file@ == path
    }

    /// The number of technical records with this path.
    pub open spec fn files_at(files: Seq<MediaFile>, path: Seq<char>) -> nat {
        Self::count_where(files, Self::path_is(path))
    }

    /// Position `i` holds the media record keyed by `(library_id, name)`.
    pub open spec fn media_at(&self, i: int, library_id: i32, name: Seq<char>) -> bool {
        0 <= i < self.media@.len() && self.media@[i].data.library_id == library_id
            && self.media@[i].data.name@ == name
    }

    pub open spec fn has_media(&self, library_id: i32, name: Seq<char>) -> bool {
        exists|i: int| #[trigger] self.media_at(i, library_id, name)
    }

    pub open spec fn key_is(library_id: i32, name: Seq<char>) -> spec_fn(Media) -> bool {
        |m: Media| m.data.library_id == library_id && m.data.name@ == name
    }

    /// The number of media records keyed by `(library_id, name)`.
    pub open spec fn media_count(media: Seq<Media>, library_id: i32, name: Seq<char>) -> nat {
        Self::count_where(media, Self::key_is(library_id, name))
    }

    pub open spec fn genre_at(&self, i: int, name: Seq<char>) -> bool {
        0 <= i < self.genres@.len() && self.genres@[i].name@ == name
    }

    pub open spec fn has_genre(&self, name: Seq<char>) -> bool {
        exists|i: int| #[trigger] self.genre_at(i, name)
    }

    pub open spec fn name_is(name: Seq<char>) -> spec_fn(Genre) -> bool {
        |g: Genre| g.name@ == name
    }

    /// The number of genres with this name.
    pub open spec fn genre_count(genres: Seq<Genre>, name: Seq<char>) -> nat {
        Self::count_where(genres, Self::name_is(name))
    }

    pub open spec fn link_is(link: GenreLink) -> spec_fn(GenreLink) -> bool {
        |l: GenreLink| l == link
    }

    /// The number of links that pair this genre with this media record.
    pub open spec fn link_count(links: Seq<GenreLink>, link: GenreLink) -> nat {
        Self::count_where(links, Self::link_is(link))
    }

    /// An empty catalogue over the given libraries; `None` where two of them
    /// share an id.
    pub fn new(libraries: Vec<Library>) -> (r: Option<Store>)
        ensures
            r is Some <==> forall|i: int, j: int|
                0 <= i < libraries@.len() && 0 <= j < libraries@.len() && i != j
                    ==> #[trigger] libraries@[i].id != #[trigger] libraries@[j].id,
            r is Some ==> {
                let s = r->0;
                &&& s.wf()
                &&& s.libraries@ == libraries@
                &&& s.media_files@.len() == 0
                &&& s.media@.len() == 0
                &&& s.genres@.len() == 0
                &&& s.genre_media@.len() == 0
            },
    {
        let n = libraries.len();
        let mut i: usize = 0;
        while i < n
            invariant
                n == libraries@.len(),
                0 <= i <= n,
                forall|a: int, b: int|
                    0 <= a < i && 0 <= b < n && a != b ==> #[trigger] libraries@[a].id != #[trigger] libraries@[b].id,
            decreases n - i,
        {
            let mut j: usize = 0;
            while j < n
                invariant
                    n == libraries@.len(),
                    0 <= i < n,
                    0 <= j <= n,
                    forall|a: int, b: int|
                        0 <= a < i && 0 <= b < n && a != b ==> #[trigger] libraries@[a].id != #[trigger] libraries@[b].id,
                    forall|b: int| 0 <= b < j && b != i ==> libraries@[i as int].id != #[trigger] libraries@[b].id,
                decreases n - j,
            {
                if j != i && libraries[i].id == libraries[j].id {
                    return None;
                }
                j = j + 1;
            }
            i = i + 1;
        }
        Some(Store { libraries, media_files: Vec::new(), media: Vec::new(), genres: Vec::new(), genre_media: Vec::new() })
    }

    /// Whether a technical record exists for `path`.
    pub fn exists_by_file(&self, path: &String) -> (r: bool)
        ensures
            r == self.has_file(path@),
    {
        let mut i: usize = 0;
        while i < self.media_files.len()
            invariant
                0 <= i <= self.media_files@.len(),
                forall|k: int| 0 <= k < i ==> #[trigger] self.media_files@[k].target_file@ != path@,
            decreases self.media_files@.len() - i,
        {
            if self.media_files[i].target_file == *path {
                return true;
            }
            i = i + 1;
        }
        false
    }

    /// Stores a new technical record; its id is its position.
    pub fn insert_media_file(&mut self, file: MediaFile) -> (id: usize)
        requires
            old(self).wf(),
            !old(self).has_file(file.target_file@),
            file.id == old(self).media_files@.len(),
            file.media_id is None,
        ensures
            final(self).wf(),
            id == old(self).media_files@.len(),
            final(self).media_files@ == old(self).media_files@.push(file),
            final(self).libraries@ == old(self).libraries@,
            final(self).media@ == old(self).media@,
            final(self).genres@ == old(self).genres@,
            final(self).genre_media@ == old(self).genre_media@,
    {
        let id = file.id;
        let ghost path = file.target_file@;
        self.media_files.push(file);
        proof {
            assert forall|i: int, j: int|
                0 <= i < self.media_files@.len() && 0 <= j < self.media_files@.len() && i != j
                implies #[trigger] self.media_files@[i].target_file@ != #[trigger] self.media_files@[j].target_file@ by {
                if i == self.media_files@.len() - 1 {
                    assert(old(self).media_files@[j] == self.media_files@[j]);
                    assert(old(self).media_files@[j].target_file@ != path);
                } else if j == self.media_files@.len() - 1 {
                    assert(old(self).media_files@[i] == self.media_files@[i]);
                    assert(old(self).media_files@[i].target_file@ != path);
                } else {
                    assert(old(self).media_files@[i] == self.media_files@[i]);
                    assert(old(self).media_files@[j] == self.media_files@[j]);
                }
            }
        }
        id
    }

    /// The position of the media record keyed by `(library_id, name)`, if any.
    pub fn get_by_name_and_lib(&self, library_id: i32, name: &String) -> (r: Option<usize>)
        requires
            self.wf(),
        ensures
            r is Some <==> self.has_media(library_id, name@),
            r is Some ==> self.media_at(r->0 as int, library_id, name@),
    {
        let mut i: usize = 0;
        while i < self.media.len()
            invariant
                self.wf(),
                0 <= i <= self.media@.len(),
                forall|k: int| 0 <= k < i ==> !#[trigger] self.media_at(k, library_id, name@),
            decreases self.media@.len() - i,
        {
            if self.media[i].data.library_id == library_id && self.media[i].data.name == *name {
                assert(self.media_at(i as int, library_id, name@));
                return Some(self.media[i].id);
            }
            i = i + 1;
        }
        None
    }

    /// Stores a new media record under a key that no record has yet.
    pub fn insert_media(&mut self, data: InsertableMedia) -> (id: usize)
        requires
            old(self).wf(),
            !old(self).has_media(data.library_id, data.name@),
            forall|j: int| 0 <= j < old(self).libraries@.len() && (#[trigger] old(self).libraries@[j]).id == data.library_id
                ==> old(self).libraries@[j].media_type == data.media_type,
        ensures
            final(self).wf(),
            id == old(self).media@.len(),
            final(self).media@ == old(self).media@.push(Media { id, data }),
            final(self).libraries@ == old(self).libraries@,
            final(self).media_files@ == old(self).media_files@,
            final(self).genres@ == old(self).genres@,
            final(self).genre_media@ == old(self).genre_media@,
    {
        let id = self.media.len() ;
        let ghost key = (data.library_id, data.name@);
        self.media.push(Media { id, data });
        proof {
            assert forall|i: int, j: int|
                0 <= i < self.media@.len() && 0 <= j < self.media@.len() && i != j
                implies !Self::same_key(#[trigger] self.media@[i], #[trigger] self.media@[j]) by {
                if i == self.media@.len() - 1 {
                    assert(old(self).media@[j] == self.media@[j]);
                    assert(!old(self).media_at(j, key.0, key.1));
                } else if j == self.media@.len() - 1 {
                    assert(old(self).media@[i] == self.media@[i]);
                    assert(!old(self).media_at(i, key.0, key.1));
                } else {
                    assert(old(self).media@[i] == self.media@[i]);
                    assert(old(self).media@[j] == self.media@[j]);
                }
            }
            assert forall|i: int| 0 <= i < self.media_files@.len()
                && (#[trigger] self.media_files@[i]).media_id is Some
                implies self.media_files@[i].media_id->0 < self.media@.len() by {
                assert(old(self).media_files@[i] == self.media_files@[i]);
            }
            assert forall|i: int| 0 <= i < self.genre_media@.len() implies {
                &&& (#[trigger] self.genre_media@[i]).genre_id < self.genres@.len()
                &&& self.genre_media@[i].media_id < self.media@.len()
            } by {
                assert(old(self).genre_media@[i] == self.genre_media@[i]);
            }
        }
        id
    }

    /// The id of the genre named `name`, stored first if no genre has that name.
    pub fn genre_get_or_insert(&mut self, name: &String) -> (id: usize)
        requires
            old(self).wf(),
        ensures
            final(self).wf(),
            final(self).genre_at(id as int, name@),
            old(self).has_genre(name@) ==> final(self).genres@ == old(self).genres@,
            !old(self).has_genre(name@) ==> final(self).genres@ == old(self).genres@.push(
                Genre { id, name: final(self).genres@.last().name },
            ) && id == old(self).genres@.len(),
            final(self).libraries@ == old(self).libraries@,
            final(self).media_files@ == old(self).media_files@,
            final(self).media@ == old(self).media@,
            final(self).genre_media@ == old(self).genre_media@,
    {
        let mut i: usize = 0;
        while i < self.genres.len()
            invariant
                self.wf(),
                0 <= i <= self.genres@.len(),
                forall|k: int| 0 <= k < i ==> !#[trigger] self.genre_at(k, name@),
            decreases self.genres@.len() - i,
        {
            if self.genres[i].name == *name {
                assert(self.genre_at(i as int, name@));
                return self.genres[i].id;
            }
            i = i + 1;
        }
        let id = self.genres.len();
        self.genres.push(Genre { id, name: name.clone() });
        proof {
            assert forall|i: int, j: int|
                0 <= i < self.genres@.len() && 0 <= j < self.genres@.len() && i != j
                implies #[trigger] self.genres@[i].name@ != #[trigger] self.genres@[j].name@ by {
                if i == self.genres@.len() - 1 {
                    assert(old(self).genres@[j] == self.genres@[j]);
                    assert(!old(self).genre_at(j, name@));
                } else if j == self.genres@.len() - 1 {
                    assert(old(self).genres@[i] == self.genres@[i]);
                    assert(!old(self).genre_at(i, name@));
                } else {
                    assert(old(self).genres@[i] == self.genres@[i]);
                    assert(old(self).genres@[j] == self.genres@[j]);
                }
            }
            assert forall|i: int| 0 <= i < self.genre_media@.len() implies {
                &&& (#[trigger] self.genre_media@[i]).genre_id < self.genres@.len()
                &&& self.genre_media@[i].media_id < self.media@.len()
            } by {
                assert(old(self).genre_media@[i] == self.genre_media@[i]);
            }
            assert(self.genre_at(id as int, name@));
        }
        id
    }

    /// Pairs a genre with a media record, unless that pair is already stored.
    pub fn insert_pair(&mut self, genre_id: usize, media_id: usize)
        requires
            old(self).wf(),
            genre_id < old(self).genres@.len(),
            media_id < old(self).media@.len(),
        ensures
            final(self).wf(),
            old(self).genre_media@.contains(GenreLink { genre_id, media_id })
                ==> final(self).genre_media@ == old(self).genre_media@,
            !old(self).genre_media@.contains(GenreLink { genre_id, media_id })
                ==> final(self).genre_media@ == old(self).genre_media@.push(GenreLink { genre_id, media_id }),
            final(self).libraries@ == old(self).libraries@,
            final(self).media_files@ == old(self).media_files@,
            final(self).media@ == old(self).media@,
            final(self).genres@ == old(self).genres@,
    {
        let link = GenreLink { genre_id, media_id };
        let mut i: usize = 0;
        while i < self.genre_media.len()
            invariant
                self.wf(),
                0 <= i <= self.genre_media@.len(),
                link == (GenreLink { genre_id, media_id }),
                forall|k: int| 0 <= k < i ==> #[trigger] self.genre_media@[k] != link,
            decreases self.genre_media@.len() - i,
        {
            if self.genre_media[i] == link {
                assert(self.genre_media@.contains(link));
                return;
            }
            i = i + 1;
        }
        assert(!self.genre_media@.contains(link));
        self.genre_media.push(link);
        proof {
            assert forall|i: int, j: int|
                0 <= i < self.genre_media@.len() && 0 <= j < self.genre_media@.len() && i != j
                implies #[trigger] self.genre_media@[i] != #[trigger] self.genre_media@[j] by {
                if i == self.genre_media@.len() - 1 {
                    assert(old(self).genre_media@[j] == self.genre_media@[j]);
                } else if j == self.genre_media@.len() - 1 {
                    assert(old(self).genre_media@[i] == self.genre_media@[i]);
                } else {
                    assert(old(self).genre_media@[i] == self.genre_media@[i]);
                    assert(old(self).genre_media@[j] == self.genre_media@[j]);
                }
            }
        }
    }

    /// Links the orphan at position `file_id` to a media record.
    pub fn update_media_id(&mut self, file_id: usize, media_id: usize)
        requires
            old(self).wf(),
            file_id < old(self).media_files@.len(),
            old(self).media_files@[file_id as int].media_id is None,
            media_id < old(self).media@.len(),
        ensures
            final(self).wf(),
            final(self).media_files@.len() == old(self).media_files@.len(),
            final(self).media_files@[file_id as int].media_id == Some(media_id),
            Self::same_but_link(final(self).media_files@[file_id as int], old(self).media_files@[file_id as int]),
            forall|k: int| 0 <= k < old(self).media_files@.len() && k != file_id
                ==> #[trigger] final(self).media_files@[k] == old(self).media_files@[k],
            final(self).libraries@ == old(self).libraries@,
            final(self).media@ == old(self).media@,
            final(self).genres@ == old(self).genres@,
            final(self).genre_media@ == old(self).genre_media@,
    {
        let i = file_id;
        let mut file = self.media_files.remove(i);
        file.media_id = Some(media_id);
        self.media_files.insert(i, file);
        proof {
            assert forall|k: int| 0 <= k < self.media_files@.len() && k != i
                implies #[trigger] self.media_files@[k] == old(self).media_files@[k] by {}
            assert forall|a: int, b: int|
                0 <= a < self.media_files@.len() && 0 <= b < self.media_files@.len() && a != b
                implies #[trigger] self.media_files@[a].target_file@ != #[trigger] self.media_files@[b].target_file@ by {
                assert(old(self).media_files@[a].target_file@ == self.media_files@[a].target_file@);
                assert(old(self).media_files@[b].target_file@ == self.media_files@[b].target_file@);
            }
            assert forall|k: int| 0 <= k < self.media_files@.len() implies #[trigger] self.media_files@[k].id == k by {
                assert(old(self).media_files@[k].id == self.media_files@[k].id);
            }
            assert forall|k: int| 0 <= k < self.media_files@.len()
                && (#[trigger] self.media_files@[k]).media_id is Some
                implies self.media_files@[k].media_id->0 < self.media@.len() by {
                if k != i {
                    assert(old(self).media_files@[k] == self.media_files@[k]);
                }
            }
        }
    }
}

} // verus!
