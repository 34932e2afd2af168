use vstd::prelude::*;
use crate::model::{
    DiscoveredFile, Event, ParsedName, GenreLink, Media, InsertableMedia, Library, MediaFile, MediaType, Mounted, OrphanMatch, OrphanQuery,
    ProbeFacts, PushEventType, QueryResult, ReconcileError, RegistrationError,
};
use crate::outside::{now_text, parse_file_name, parse_release_year, parsed_name_of, release_year_of};
use crate::store::Store;
use crate::text::{
    backdrop_address, backdrop_url, is_media_name, is_parser_safe, media_name, library_topic, parser_safe, poster_address,
    poster_url, topic_for,
};

verus! {

/// The positions of the orphans of library `library_id`, in store order.
pub open spec fn orphan_ids(files: Seq<MediaFile>, library_id: i32) -> Seq<usize>
    decreases files.len(),
{
    if files.len() == 0 {
        Seq::empty()
    } else {
        let rest = orphan_ids(files.drop_last(), library_id);
        let f = files.last();
        if f.library_id == library_id && f.media_id is None {
            rest.push(f.id)
        } else {
            rest
        }
    }
}

/// The year that a provider's release date gives, if it gives one.
pub open spec fn year_of_release(date: Option<Seq<char>>) -> Option<i32> {
    match date {
        Some(d) => release_year_of(d),
        None => None,
    }
}

pub open spec fn view_opt(s: Option<String>) -> Option<Seq<char>> {
    match s {
        Some(x) => Some(x@),
        None => None,
    }
}

pub open spec fn address_opt(s: Option<String>, backdrop: bool) -> Option<Seq<char>> {
    match s {
        Some(x) => Some(if backdrop { backdrop_url(x@) } else { poster_url(x@) }),
        None => None,
    }
}

/// Some genre named `name` is linked to media record `m`.
pub open spec fn genre_linked(s: Store, name: Seq<char>, m: usize) -> bool {
    exists|g: int| #[trigger] s.genre_at(g, name) && s.genre_media@.contains(GenreLink { genre_id: g as usize, media_id: m })
}

/// `d` holds what the provider's answer `q` says of a title of library `lib`:
/// every field but the time it was added.
pub open spec fn describes(d: InsertableMedia, lib: Library, name: Seq<char>, q: QueryResult) -> bool {
    &&& d.library_id == lib.id
    &&& d.name@ == name
    &&& view_opt(d.description) == view_opt(q.overview)
    &&& d.rating == q.rating
    &&& d.year == year_of_release(view_opt(q.release_date))
    &&& view_opt(d.poster_path) == address_opt(q.poster_path, false)
    &&& view_opt(d.backdrop_path) == address_opt(q.backdrop_path, true)
    &&& d.media_type == lib.media_type
}

/// Media record `m` of `s1` is the one keyed by `d`'s library and name: the
/// record `s0` held under that key, or else `d` stored after the others.
pub open spec fn upserted(s0: Store, s1: Store, d: InsertableMedia, m: usize) -> bool {
    &&& s1.media_at(m as int, d.library_id, d.name@)
    &&& if s0.has_media(d.library_id, d.name@) {
        s1.media@ == s0.media@
    } else {
        m == s0.media@.len() && s1.media@ == s0.media@.push(Media { id: m, data: d })
    }
}

/// Tables of `s1` that keep every row of `s0` in place.
pub open spec fn genres_kept(s0: Store, s1: Store) -> bool {
    &&& s0.genres@.len() <= s1.genres@.len()
    &&& forall|j: int| 0 <= j < s0.genres@.len() ==> #[trigger] s1.genres@[j] == s0.genres@[j]
    &&& s0.genre_media@.len() <= s1.genre_media@.len()
    &&& forall|j: int| 0 <= j < s0.genre_media@.len() ==> #[trigger] s1.genre_media@[j] == s0.genre_media@[j]
}

/// `n` is one of `names`.
pub open spec fn named_in(n: Seq<char>, names: Seq<String>) -> bool {
    exists|k: int| 0 <= k < names.len() && #[trigger] names[k]@ == n
}

/// Every genre that `s1` adds to `s0` is named in `names`, and every link
/// that it adds pairs a genre with media record `m`.
pub open spec fn additions_for(s0: Store, s1: Store, names: Seq<String>, m: usize) -> bool {
    &&& forall|j: int| s0.genres@.len() <= j < s1.genres@.len() ==> named_in(#[trigger] s1.genres@[j].name@, names)
    &&& forall|j: int| s0.genre_media@.len() <= j < s1.genre_media@.len() ==> (#[trigger] s1.genre_media@[j]).media_id == m
}

/// `s1` differs from `s0` in the link of file `file_id` alone, now `m`.
pub open spec fn linked_file(s0: Store, s1: Store, file_id: usize, m: usize) -> bool {
    &&& s1.libraries@ == s0.libraries@
    &&& file_id < s0.media_files@.len()
    &&& s1.media_files@.len() == s0.media_files@.len()
    &&& s1.media_files@[file_id as int].media_id == Some(m)
    &&& Store::same_but_link(s1.media_files@[file_id as int], s0.media_files@[file_id as int])
    &&& forall|k: int| 0 <= k < s0.media_files@.len() && k != file_id
        ==> #[trigger] s1.media_files@[k] == s0.media_files@[k]
}

/// The event that announces a new card `m` in library `library_id`.
pub open spec fn new_card(e: Event, library_id: i32, m: usize) -> bool {
    e.topic@ == library_topic(library_id as int) && e.id == m && e.event_type == PushEventType::EventNewCard
}

proof fn lemma_linked_by_prefix(
    ms: Seq<OrphanMatch>,
    r0: Seq<Result<usize, ReconcileError>>,
    r1: Seq<Result<usize, ReconcileError>>,
    k: int,
)
    requires
        0 <= k <= r0.len() <= r1.len(),
        forall|j: int| 0 <= j < r0.len() ==> r1[j] == r0[j],
    ensures
        forall|f: usize| IterativeScanner::linked_by(ms, r1, k, f) == IterativeScanner::linked_by(ms, r0, k, f),
{
    assert forall|f: usize| IterativeScanner::linked_by(ms, r1, k, f) == IterativeScanner::linked_by(ms, r0, k, f) by {
        if IterativeScanner::linked_by(ms, r1, k, f) {
            let j = choose|j: int| 0 <= j < k && ms[j].file_id == f && #[trigger] r1[j] is Ok;
            assert(r0[j] == r1[j]);
        }
        if IterativeScanner::linked_by(ms, r0, k, f) {
            let j = choose|j: int| 0 <= j < k && ms[j].file_id == f && #[trigger] r0[j] is Ok;
            assert(r0[j] == r1[j]);
        }
    }
}

proof fn lemma_registered_by_prefix(
    files: Seq<DiscoveredFile>,
    r0: Seq<Option<Result<Mounted, RegistrationError>>>,
    r1: Seq<Option<Result<Mounted, RegistrationError>>>,
    k: int,
)
    requires
        0 <= k <= r0.len() <= r1.len(),
        forall|j: int| 0 <= j < r0.len() ==> r1[j] == r0[j],
    ensures
        forall|p: Seq<char>| IterativeScanner::registered_by(files, r1, k, p) == IterativeScanner::registered_by(files, r0, k, p),
{
    assert forall|p: Seq<char>| IterativeScanner::registered_by(files, r1, k, p) == IterativeScanner::registered_by(files, r0, k, p) by {
        if IterativeScanner::registered_by(files, r1, k, p) {
            let j = choose|j: int| 0 <= j < k && files[j].path@ == p && #[trigger] IterativeScanner::is_registered(r1[j]);
            assert(r0[j] == r1[j]);
        }
        if IterativeScanner::registered_by(files, r0, k, p) {
            let j = choose|j: int| 0 <= j < k && files[j].path@ == p && #[trigger] IterativeScanner::is_registered(r0[j]);
            assert(r0[j] == r1[j]);
        }
    }
}

/// Midway through a registration pass, a path is registered exactly when it
/// was before the pass or an entry of the pass registered it.
pub proof fn lemma_scan_known(
    s0: IterativeScanner,
    files: Seq<DiscoveredFile>,
    r: Seq<Option<Result<Mounted, RegistrationError>>>,
    s1: IterativeScanner,
    p: Seq<char>,
)
    requires
        IterativeScanner::scan_state(s0, files, r, s1),
        r.len() <= files.len(),
    ensures
        s1.store.has_file(p) == (s0.store.has_file(p) || IterativeScanner::registered_by(files, r, r.len() as int, p)),
{
    if s1.store.has_file(p) {
        let w = choose|w: int| 0 <= w < s1.store.media_files@.len() && #[trigger] s1.store.media_files@[w].target_file@ == p;
        if w < s0.store.media_files@.len() {
            assert(s0.store.media_files@[w] == s1.store.media_files@[w]);
        } else {
            assert(IterativeScanner::added_by(r, w));
            let k = choose|k: int| 0 <= k < r.len() && #[trigger] IterativeScanner::is_registered(r[k])
                && IterativeScanner::registered_id(r[k]) == w;
            assert(IterativeScanner::scan_outcome(s0, files, r, k, s1));
        }
    }
    if s0.store.has_file(p) {
        let w = choose|w: int| 0 <= w < s0.store.media_files@.len() && #[trigger] s0.store.media_files@[w].target_file@ == p;
        assert(s0.store.media_files@[w] == s1.store.media_files@[w]);
    }
    if IterativeScanner::registered_by(files, r, r.len() as int, p) {
        let j = choose|j: int| 0 <= j < r.len() && files[j].path@ == p && #[trigger] IterativeScanner::is_registered(r[j]);
        assert(IterativeScanner::scan_outcome(s0, files, r, j, s1));
        let i = IterativeScanner::registered_id(r[j]) as int;
        if !media_name(files[j].file_name@) {
        } else if s0.store.has_file(files[j].path@) || IterativeScanner::registered_by(files, r, j, files[j].path@) {
        } else {
            assert(s1.store.media_files@[i].target_file@ == p);
        }
    }
}

proof fn lemma_genres_kept_trans(a: Store, b: Store, c: Store)
    requires
        genres_kept(a, b),
        genres_kept(b, c),
    ensures
        genres_kept(a, c),
{
    assert forall|j: int| 0 <= j < a.genres@.len() implies #[trigger] c.genres@[j] == a.genres@[j] by {
        assert(c.genres@[j] == b.genres@[j]);
    }
    assert forall|j: int| 0 <= j < a.genre_media@.len() implies #[trigger] c.genre_media@[j] == a.genre_media@[j] by {
        assert(c.genre_media@[j] == b.genre_media@[j]);
    }
}

proof fn lemma_genre_linked_kept(a: Store, b: Store, name: Seq<char>, m: usize)
    requires
        genres_kept(a, b),
        genre_linked(a, name, m),
    ensures
        genre_linked(b, name, m),
{
    let g = choose|g: int| #[trigger] a.genre_at(g, name) && a.genre_media@.contains(GenreLink { genre_id: g as usize, media_id: m });
    let j = choose|j: int| 0 <= j < a.genre_media@.len() && a.genre_media@[j] == GenreLink { genre_id: g as usize, media_id: m };
    assert(b.genre_media@[j] == a.genre_media@[j]);
    assert(b.genres@[g] == a.genres@[g]);
    assert(b.genre_at(g, name));
}

proof fn lemma_ok_count_prefix(r: Seq<Result<usize, ReconcileError>>, k: int)
    requires
        0 <= k < r.len(),
    ensures
        IterativeScanner::ok_count(r.take(k)) + (if r[k] is Ok { 1nat } else { 0 }) <= IterativeScanner::ok_count(r),
    decreases r.len(),
{
    if k == r.len() - 1 {
        assert(r.take(k) =~= r.drop_last());
    } else {
        let rest = r.drop_last();
        assert(rest.take(k) =~= r.take(k));
        assert(rest[k] == r[k]);
        lemma_ok_count_prefix(rest, k);
    }
}

/// Scans one library: registers its files and reconciles its orphans with
/// the provider's answers; the events it raises wait in `events`.
pub struct IterativeScanner {
    pub store: Store,
    pub lib: Library,
    pub events: Vec<Event>,
}

impl IterativeScanner {
    /// The store is well formed and holds this scanner's library.
    pub open spec fn wf(&self) -> bool {
        &&& self.store.wf()
        &&& exists|j: int| 0 <= j < self.store.libraries@.len()
            && (#[trigger] self.store.libraries@[j]).id == self.lib.id
            && self.store.libraries@[j].media_type == self.lib.media_type
    }

    /// The effect of `mount_parsed(path, parsed, probe)` taking `s0` to `s1`
    /// with result `r`, where `parsed` is the parser's reading of the file name.
    pub open spec fn mount_parsed_effect(
        s0: IterativeScanner,
        path: Seq<char>,
        parsed: (Seq<char>, Option<i32>, Option<i32>, Option<i32>),
        probe: Option<ProbeFacts>,
        s1: IterativeScanner,
        r: Result<Mounted, RegistrationError>,
    ) -> bool {
        &&& s1.wf()
        &&& s1.lib == s0.lib
        &&& s1.events@ == s0.events@
        &&& if s0.store.has_file(path) {
            r == Ok::<Mounted, RegistrationError>(Mounted::AlreadyKnown) && s1.store == s0.store
        } else if probe is None {
            r == Err::<Mounted, RegistrationError>(RegistrationError::ProbeError) && s1.store == s0.store
        } else {
            let id = s0.store.media_files@.len() as usize;
            let f = s1.store.media_files@.last();
            &&& r == Ok::<Mounted, RegistrationError>(Mounted::Registered(id))
            &&& s1.store.media_files@ == s0.store.media_files@.push(f)
            &&& f.id == id
            &&& f.library_id == s0.lib.id
            &&& f.media_id is None
            &&& f.target_file@ == path
            &&& f.raw_name@ == parsed.0
            &&& f.raw_year == parsed.1
            &&& f.season == parsed.2
            &&& f.episode == parsed.3
            &&& f.probe == probe->0
            &&& s1.store.libraries@ == s0.store.libraries@
            &&& s1.store.media@ == s0.store.media@
            &&& s1.store.genres@ == s0.store.genres@
            &&& s1.store.genre_media@ == s0.store.genre_media@
        }
    }

    /// The effect of `mount_file(path, file_name, probe)` taking `s0` to `s1`
    /// with result `r`.
    pub open spec fn mount_effect(
        s0: IterativeScanner,
        path: Seq<char>,
        file_name: Seq<char>,
        probe: Option<ProbeFacts>,
        s1: IterativeScanner,
        r: Result<Mounted, RegistrationError>,
    ) -> bool {
        if !s0.store.has_file(path) && (!parser_safe(file_name) || parsed_name_of(file_name) is None) {
            &&& s1.wf()
            &&& s1.lib == s0.lib
            &&& s1.events@ == s0.events@
            &&& r == Err::<Mounted, RegistrationError>(RegistrationError::ParseError)
            &&& s1.store == s0.store
        } else {
            let parsed = if s0.store.has_file(path) {
                (Seq::empty(), None, None, None)
            } else {
                parsed_name_of(file_name)->0
            };
            Self::mount_parsed_effect(s0, path, parsed, probe, s1, r)
        }
    }

    /// The error that reconciling file `file_id` with the answer `q` ends in,
    /// or `None` where it succeeds.
    pub open spec fn reconcile_error(s: IterativeScanner, q: QueryResult, file_id: usize) -> Option<ReconcileError> {
        if q.title is None {
            Some(ReconcileError::MissingTitle)
        } else if file_id >= s.store.media_files@.len() || s.store.media_files@[file_id as int].library_id != s.lib.id {
            Some(ReconcileError::UnknownRecord)
        } else if s.store.media_files@[file_id as int].media_id is Some {
            Some(ReconcileError::NotOrphan)
        } else if s.lib.media_type == MediaType::Series {
            Some(ReconcileError::SeriesUnsupported)
        } else {
            None
        }
    }

    /// A successful reconciliation of file `file_id` with `q` took `s0` to
    /// `s1` and bound the file to media record `m`.
    pub open spec fn reconciled(s0: IterativeScanner, q: QueryResult, file_id: usize, s1: IterativeScanner, m: usize) -> bool {
        &&& exists|d: InsertableMedia| describes(d, s0.lib, q.title->0@, q) && #[trigger] upserted(s0.store, s1.store, d, m)
        &&& s1.store.media@[m as int].data.media_type == s0.lib.media_type
        &&& genres_kept(s0.store, s1.store)
        &&& additions_for(s0.store, s1.store, q.genres@, m)
        &&& forall|k: int| 0 <= k < q.genres@.len() ==> genre_linked(s1.store, #[trigger] q.genres@[k]@, m)
        &&& linked_file(s0.store, s1.store, file_id, m)
        &&& s1.events@.len() == s0.events@.len() + 1
        &&& s1.events@.drop_last() == s0.events@
        &&& new_card(s1.events@.last(), s0.lib.id, m)
    }

    /// A scanner for the library with id `library_id`; `Err` where the store
    /// holds no such library.
    pub fn new(library_id: i32, store: Store) -> (r: Result<IterativeScanner, ()>)
        requires
            store.wf(),
        ensures
            r is Ok <==> exists|i: int| 0 <= i < store.libraries@.len() && #[trigger] store.libraries@[i].id == library_id,
            r is Ok ==> {
                let s = r->Ok_0;
                &&& s.wf()
                &&& s.store == store
                &&& s.lib.id == library_id
                &&& exists|i: int| 0 <= i < store.libraries@.len()
                    && #[trigger] store.libraries@[i].id == library_id
                    && store.libraries@[i].location@ == s.lib.location@
                    && store.libraries@[i].media_type == s.lib.media_type
                &&& s.events@.len() == 0
            },
    {
        let mut i: usize = 0;
        while i < store.libraries.len()
            invariant
                store.wf(),
                0 <= i <= store.libraries@.len(),
                forall|k: int| 0 <= k < i ==> #[trigger] store.libraries@[k].id != library_id,
            decreases store.libraries@.len() - i,
        {
            if store.libraries[i].id == library_id {
                let lib = Library {
                    id: library_id,
                    location: store.libraries[i].location.clone(),
                    media_type: store.libraries[i].media_type,
                };
                assert(store.libraries@[i as int].id == library_id);
                assert(store.libraries@[i as int].location@ == lib.location@);
                assert(store.libraries@[i as int].media_type == lib.media_type);
                return Ok(IterativeScanner { store, lib, events: Vec::new() });
            }
            i = i + 1;
        }
        Err(())
    }

    /// Whether a technical record exists for `path`.
    pub fn is_mounted(&self, path: &String) -> (r: bool)
        ensures
            r == self.store.has_file(path@),
    {
        self.store.exists_by_file(path)
    }

    /// Registers the file at `path`, whose name the parser read as `parsed`,
    /// with the facts that probing it gave (`None` where probing gave none).
    /// A path that is already registered is left as it is.
    pub fn mount_parsed(&mut self, path: String, parsed: ParsedName, probe: Option<ProbeFacts>) -> (r: Result<
        Mounted,
        RegistrationError,
    >)
        requires
            old(self).wf(),
        ensures
            Self::mount_parsed_effect(
                *old(self),
                path@,
                (parsed.title@, parsed.year, parsed.season, parsed.episode),
                probe,
                *final(self),
                r,
            ),
    {
        if self.store.exists_by_file(&path) {
            return Ok(Mounted::AlreadyKnown);
        }
        let probe = match probe {
            Some(p) => p,
            None => {
                return Err(RegistrationError::ProbeError);
            },
        };
        let id = self.store.media_files.len();
        let file = MediaFile {
            id,
            library_id: self.lib.id,
            media_id: None,
            target_file: path,
            raw_name: parsed.title,
            raw_year: parsed.year,
            season: parsed.season,
            episode: parsed.episode,
            probe,
        };
        let id = self.store.insert_media_file(file);
        Ok(Mounted::Registered(id))
    }

    /// Registers the file at `path`, named `file_name`, with the facts that
    /// probing it gave (`None` where probing gave none). A path that is
    /// already registered is left as it is; a name that the parser cannot
    /// read is skipped.
    pub fn mount_file(&mut self, path: String, file_name: &str, probe: Option<ProbeFacts>) -> (r: Result<
        Mounted,
        RegistrationError,
    >)
        requires
            old(self).wf(),
        ensures
            Self::mount_effect(*old(self), path@, file_name@, probe, *final(self), r),
    {
        if self.store.exists_by_file(&path) {
            return Ok(Mounted::AlreadyKnown);
        }
        if !is_parser_safe(file_name) {
            return Err(RegistrationError::ParseError);
        }
        match parse_file_name(file_name) {
            Some(parsed) => self.mount_parsed(path, parsed, probe),
            None => Err(RegistrationError::ParseError),
        }
    }

    /// The provider queries owed to the orphans of this library, in store order.
    pub fn find_orphans(&self) -> (r: Vec<OrphanQuery>)
        requires
            self.wf(),
        ensures
            r@.len() == orphan_ids(self.store.media_files@, self.lib.id).len(),
            forall|k: int| 0 <= k < r@.len() ==> {
                let id = #[trigger] r@[k].file_id;
                let f = self.store.media_files@[id as int];
                &&& id == orphan_ids(self.store.media_files@, self.lib.id)[k]
                &&& id < self.store.media_files@.len()
                &&& r@[k].title@ == f.raw_name@
                &&& r@[k].year == f.raw_year
                &&& r@[k].is_series == (self.lib.media_type == MediaType::Series)
            },
    {
        let files = &self.store.media_files;
        let is_series = self.lib.media_type == MediaType::Series;
        let mut r: Vec<OrphanQuery> = Vec::new();
        let mut i: usize = 0;
        while i < files.len()
            invariant
                self.wf(),
                files == &self.store.media_files,
                is_series == (self.lib.media_type == MediaType::Series),
                0 <= i <= files@.len(),
                r@.len() == orphan_ids(files@.subrange(0, i as int), self.lib.id).len(),
                forall|k: int| 0 <= k < r@.len() ==> {
                    let id = #[trigger] r@[k].file_id;
                    let f = files@[id as int];
                    &&& id == orphan_ids(files@.subrange(0, i as int), self.lib.id)[k]
                    &&& id < i
                    &&& r@[k].title@ == f.raw_name@
                    &&& r@[k].year == f.raw_year
                    &&& r@[k].is_series == is_series
                },
            decreases files@.len() - i,
        {
            let ghost before = r@;
            proof {
                assert(files@.subrange(0, i as int + 1).drop_last() == files@.subrange(0, i as int));
            }
            let f = &files[i];
            if f.library_id == self.lib.id && f.media_id.is_none() {
                r.push(OrphanQuery { file_id: f.id, title: f.raw_name.clone(), year: f.raw_year, is_series });
                proof {
                    assert forall|k: int| 0 <= k < r@.len() implies {
                        let id = #[trigger] r@[k].file_id;
                        let f = files@[id as int];
                        &&& id == orphan_ids(files@.subrange(0, i as int + 1), self.lib.id)[k]
                        &&& id < i + 1
                        &&& r@[k].title@ == f.raw_name@
                        &&& r@[k].year == f.raw_year
                        &&& r@[k].is_series == is_series
                    } by {
                        if k < before.len() {
                            assert(r@[k] == before[k]);
                        }
                    }
                }
            }
            i = i + 1;
        }
        assert(files@.subrange(0, files@.len() as int) == files@);
        r
    }

    /// Publishes a new-card event for media record `media_id`.
    pub fn push_event(&mut self, media_id: usize)
        ensures
            final(self).store == old(self).store,
            final(self).lib == old(self).lib,
            final(self).events@.len() == old(self).events@.len() + 1,
            final(self).events@.drop_last() == old(self).events@,
            new_card(final(self).events@.last(), old(self).lib.id, media_id),
    {
        let event = Event { topic: topic_for(self.lib.id), id: media_id, event_type: PushEventType::EventNewCard };
        self.events.push(event);
        assert(self.events@.drop_last() =~= old(self).events@);
    }

    /// The media record that the provider's answer `result` describes under
    /// the title `name`, given the year that its release date reads as and
    /// the time of adding.
    pub fn media_from(&self, name: String, result: QueryResult, year: Option<i32>, added: String) -> (r: (
        InsertableMedia,
        Vec<String>,
    ))
        ensures
            r.0.library_id == self.lib.id,
            r.0.name@ == name@,
            view_opt(r.0.description) == view_opt(result.overview),
            r.0.rating == result.rating,
            r.0.year == year,
            view_opt(r.0.poster_path) == address_opt(result.poster_path, false),
            view_opt(r.0.backdrop_path) == address_opt(result.backdrop_path, true),
            r.0.media_type == self.lib.media_type,
            r.0.added@ == added@,
            r.1@ == result.genres@,
    {
        let poster_path = match &result.poster_path {
            Some(p) => Some(poster_address(p)),
            None => None,
        };
        let backdrop_path = match &result.backdrop_path {
            Some(p) => Some(backdrop_address(p)),
            None => None,
        };
        let media = InsertableMedia {
            library_id: self.lib.id,
            name,
            description: result.overview,
            rating: result.rating,
            year,
            added,
            poster_path,
            backdrop_path,
            media_type: self.lib.media_type,
        };
        (media, result.genres)
    }

    /// The media record that the provider's answer `result` describes under
    /// the title `name`, added now.
    pub fn build_media(&self, name: String, result: QueryResult) -> (r: (InsertableMedia, Vec<String>))
        ensures
            describes(r.0, self.lib, name@, result),
            r.1@ == result.genres@,
    {
        let year = match &result.release_date {
            Some(d) => parse_release_year(d.as_str()),
            None => None,
        };
        self.media_from(name, result, year, now_text())
    }

    /// Binds orphan `file_id` to the media record keyed by `media`'s library
    /// and name, stored first if absent; links the record to each genre in
    /// `genres` and publishes a new-card event for it.
    pub fn insert_movie(&mut self, file_id: usize, media: InsertableMedia, genres: &Vec<String>) -> (m: usize)
        requires
            old(self).wf(),
            file_id < old(self).store.media_files@.len(),
            old(self).store.media_files@[file_id as int].media_id is None,
            media.library_id == old(self).lib.id,
            media.media_type == old(self).lib.media_type,
        ensures
            final(self).wf(),
            final(self).lib == old(self).lib,
            final(self).store.media@[m as int].data.media_type == old(self).lib.media_type,
            upserted(old(self).store, final(self).store, media, m),
            genres_kept(old(self).store, final(self).store),
            additions_for(old(self).store, final(self).store, genres@, m),
            forall|k: int| 0 <= k < genres@.len() ==> genre_linked(final(self).store, #[trigger] genres@[k]@, m),
            linked_file(old(self).store, final(self).store, file_id, m),
            final(self).events@.len() == old(self).events@.len() + 1,
            final(self).events@.drop_last() == old(self).events@,
            new_card(final(self).events@.last(), old(self).lib.id, m),
    {
        let ghost d = media;
        let m = match self.store.get_by_name_and_lib(media.library_id, &media.name) {
            Some(id) => id,
            None => self.store.insert_media(media),
        };
        assert(upserted(old(self).store, self.store, d, m));
        let ghost s1 = self.store;
        let mut i: usize = 0;
        while i < genres.len()
            invariant
                self.wf(),
                self.lib == old(self).lib,
                self.events == old(self).events,
                0 <= i <= genres@.len(),
                m < self.store.media@.len(),
                self.store.media@ == s1.media@,
                self.store.media_files@ == s1.media_files@,
                self.store.libraries@ == s1.libraries@,
                s1.media_files@ == old(self).store.media_files@,
                genres_kept(s1, self.store),
                additions_for(s1, self.store, genres@, m),
                s1.genres@ == old(self).store.genres@,
                s1.genre_media@ == old(self).store.genre_media@,
                forall|k: int| 0 <= k < i ==> genre_linked(self.store, #[trigger] genres@[k]@, m),
            decreases genres@.len() - i,
        {
            let ghost before = self.store;
            let g = self.store.genre_get_or_insert(&genres[i]);
            let ghost mid = self.store;
            self.store.insert_pair(g, m);
            proof {
                let link = GenreLink { genre_id: g, media_id: m };
                if !mid.genre_media@.contains(link) {
                    assert(self.store.genre_media@[self.store.genre_media@.len() - 1] == link);
                }
                assert(self.store.genre_media@.contains(link));
                assert(self.store.genre_at(g as int, genres@[i as int]@));
                assert forall|j: int| s1.genres@.len() <= j < self.store.genres@.len()
                    implies named_in(#[trigger] self.store.genres@[j].name@, genres@) by {
                    if j < before.genres@.len() {
                        assert(self.store.genres@[j] == before.genres@[j]);
                    } else {
                        assert(j == g);
                        assert(genres@[i as int]@ == self.store.genres@[j].name@);
                    }
                }
                assert forall|j: int| s1.genre_media@.len() <= j < self.store.genre_media@.len()
                    implies (#[trigger] self.store.genre_media@[j]).media_id == m by {
                    if j < before.genre_media@.len() {
                        assert(self.store.genre_media@[j] == before.genre_media@[j]);
                    }
                }
                assert forall|k: int| 0 <= k < i + 1 implies genre_linked(self.store, #[trigger] genres@[k]@, m) by {
                    if k < i {
                        let w = choose|w: int| #[trigger] before.genre_at(w, genres@[k]@)
                            && before.genre_media@.contains(GenreLink { genre_id: w as usize, media_id: m });
                        let j = choose|j: int| 0 <= j < before.genre_media@.len()
                            && before.genre_media@[j] == GenreLink { genre_id: w as usize, media_id: m };
                        assert(self.store.genre_media@[j] == before.genre_media@[j]);
                        assert(self.store.genre_at(w, genres@[k]@));
                    }
                }
            }
            i = i + 1;
        }
        let ghost s2 = self.store;
        assert(additions_for(s1, s2, genres@, m));
        self.store.update_media_id(file_id, m);
        self.push_event(m);
        proof {
            assert forall|j: int| old(self).store.genres@.len() <= j < self.store.genres@.len()
                implies named_in(#[trigger] self.store.genres@[j].name@, genres@) by {
                assert(self.store.genres@[j] == s2.genres@[j]);
                assert(s1.genres@.len() <= j < s2.genres@.len());
            }
            assert forall|j: int| old(self).store.genre_media@.len() <= j < self.store.genre_media@.len()
                implies (#[trigger] self.store.genre_media@[j]).media_id == m by {
                assert(self.store.genre_media@[j] == s2.genre_media@[j]);
            }
            assert forall|k: int| 0 <= k < genres@.len() implies genre_linked(self.store, #[trigger] genres@[k]@, m) by {
                assert(genre_linked(s2, genres@[k]@, m));
                let w = choose|w: int| #[trigger] s2.genre_at(w, genres@[k]@)
                    && s2.genre_media@.contains(GenreLink { genre_id: w as usize, media_id: m });
                assert(self.store.genre_at(w, genres@[k]@));
            }
        }
        m
    }

    /// Reconciles file `file_id` with the provider's answer `result`: binds it
    /// to the canonical record of that title in this library (created if
    /// absent), links the record to the answer's genres and publishes a
    /// new-card event. Series libraries are not handled yet.
    pub fn match_media_to_tmdb(&mut self, result: QueryResult, file_id: usize) -> (r: Result<usize, ReconcileError>)
        requires
            old(self).wf(),
        ensures
            final(self).wf(),
            final(self).lib == old(self).lib,
            match Self::reconcile_error(*old(self), result, file_id) {
                Some(e) => r == Err::<usize, ReconcileError>(e) && final(self).store == old(self).store
                    && final(self).events@ == old(self).events@,
                None => r is Ok && Self::reconciled(*old(self), result, file_id, *final(self), r->Ok_0),
            },
    {
        let ghost q = result;
        let name = match &result.title {
            Some(t) => t.clone(),
            None => {
                return Err(ReconcileError::MissingTitle);
            },
        };
        if file_id >= self.store.media_files.len() || self.store.media_files[file_id].library_id != self.lib.id {
            return Err(ReconcileError::UnknownRecord);
        }
        if self.store.media_files[file_id].media_id.is_some() {
            return Err(ReconcileError::NotOrphan);
        }
        if self.lib.media_type == MediaType::Series {
            return Err(ReconcileError::SeriesUnsupported);
        }
        let (media, genres) = self.build_media(name, result);
        let ghost d = media;
        let m = self.insert_movie(file_id, media, &genres);
        assert(upserted(old(self).store, self.store, d, m));
        Ok(m)
    }

    /// Some match before position `k` names file `f` and succeeded.
    pub open spec fn linked_by(ms: Seq<OrphanMatch>, r: Seq<Result<usize, ReconcileError>>, k: int, f: usize) -> bool {
        exists|j: int| 0 <= j < k && ms[j].file_id == f && #[trigger] r[j] is Ok
    }

    /// The outcome `r[k]` of match `k` of a pass over `ms` that started from `s`.
    pub open spec fn pass_outcome(s: IterativeScanner, ms: Seq<OrphanMatch>, r: Seq<Result<usize, ReconcileError>>, k: int) -> bool {
        let f = ms[k].file_id;
        match ms[k].result {
            None => r[k] == Err::<usize, ReconcileError>(ReconcileError::ProviderMiss),
            Some(q) => if q.title is None {
                r[k] == Err::<usize, ReconcileError>(ReconcileError::MissingTitle)
            } else if f >= s.store.media_files@.len() || s.store.media_files@[f as int].library_id != s.lib.id {
                r[k] == Err::<usize, ReconcileError>(ReconcileError::UnknownRecord)
            } else if s.store.media_files@[f as int].media_id is Some || Self::linked_by(ms, r, k, f) {
                r[k] == Err::<usize, ReconcileError>(ReconcileError::NotOrphan)
            } else if s.lib.media_type == MediaType::Series {
                r[k] == Err::<usize, ReconcileError>(ReconcileError::SeriesUnsupported)
            } else {
                r[k] is Ok
            },
        }
    }

    /// The number of successes in `r`.
    pub open spec fn ok_count(r: Seq<Result<usize, ReconcileError>>) -> nat
        decreases r.len(),
    {
        if r.len() == 0 {
            0
        } else {
            Self::ok_count(r.drop_last()) + if r.last() is Ok { 1nat } else { 0 }
        }
    }

    /// Media record `i` of `s1` was created by a successful match of the pass,
    /// and describes that match's answer.
    pub open spec fn created_by(s0: IterativeScanner, ms: Seq<OrphanMatch>, r: Seq<Result<usize, ReconcileError>>, s1: IterativeScanner, i: int) -> bool {
        exists|k: int| 0 <= k < r.len() && #[trigger] r[k] is Ok && r[k]->Ok_0 == i
            && describes(s1.store.media@[i].data, s0.lib, ms[k].result->0.title->0@, ms[k].result->0)
    }

    /// What success `k` of a pass from `s0` left in `s1`: the record keyed by
    /// its title, the file linked to it, its genres linked to it, and its
    /// new-card event at its place among the pass's events.
    pub open spec fn success_shown(s0: IterativeScanner, ms: Seq<OrphanMatch>, r: Seq<Result<usize, ReconcileError>>, s1: IterativeScanner, k: int) -> bool {
        let m = r[k]->Ok_0;
        let q = ms[k].result->0;
        &&& s1.store.media_at(m as int, s0.lib.id, q.title->0@)
        &&& s1.store.media@[m as int].data.media_type == s0.lib.media_type
        &&& s1.store.media_files@[ms[k].file_id as int].media_id == Some(m)
        &&& forall|g: int| 0 <= g < q.genres@.len() ==> genre_linked(s1.store, #[trigger] q.genres@[g]@, m)
        &&& new_card(s1.events@[(s0.events@.len() + Self::ok_count(r.take(k))) as int], s0.lib.id, m)
    }

    /// The state `s1` after the first `r.len()` matches of a pass over `ms`
    /// that started from `s0`, with outcomes `r`.
    pub open spec fn pass_state(s0: IterativeScanner, ms: Seq<OrphanMatch>, r: Seq<Result<usize, ReconcileError>>, s1: IterativeScanner) -> bool {
        &&& s1.wf()
        &&& s1.lib == s0.lib
        &&& s1.store.libraries@ == s0.store.libraries@
        &&& s1.store.media_files@.len() == s0.store.media_files@.len()
        &&& s0.store.media@.len() <= s1.store.media@.len()
        &&& forall|i: int| 0 <= i < s0.store.media@.len() ==> #[trigger] s1.store.media@[i] == s0.store.media@[i]
        &&& forall|k: int| 0 <= k < r.len() ==> #[trigger] Self::pass_outcome(s0, ms, r, k)
        &&& forall|k: int| 0 <= k < r.len() && (#[trigger] r[k]) is Ok ==> Self::success_shown(s0, ms, r, s1, k)
        &&& forall|i: int| s0.store.media@.len() <= i < s1.store.media@.len() ==> #[trigger] Self::created_by(s0, ms, r, s1, i)
        &&& genres_kept(s0.store, s1.store)
        &&& s1.events@.len() == s0.events@.len() + Self::ok_count(r)
        &&& s0.events@.is_prefix_of(s1.events@)
        &&& forall|i: int| 0 <= i < s0.store.media_files@.len() ==> {
            &&& Store::same_but_link(#[trigger] s1.store.media_files@[i], s0.store.media_files@[i])
            &&& !Self::linked_by(ms, r, r.len() as int, i as usize) ==> s1.store.media_files@[i] == s0.store.media_files@[i]
        }
        &&& (forall|k: int| 0 <= k < r.len() ==> (#[trigger] r[k]) is Err) ==> s1.store == s0.store && s1.events@ == s0.events@
    }

    /// One step of an orphan pass keeps `pass_state`.
    #[verifier::rlimit(60)]
    pub proof fn lemma_pass_step(
        init: IterativeScanner,
        all: Seq<OrphanMatch>,
        r0: Seq<Result<usize, ReconcileError>>,
        s0: IterativeScanner,
        outcome: Result<usize, ReconcileError>,
        s1: IterativeScanner,
    )
        requires
            r0.len() < all.len(),
            Self::pass_state(init, all, r0, s0),
            Self::pass_step(s0, all[r0.len() as int], outcome, s1),
        ensures
            Self::pass_state(init, all, r0.push(outcome), s1),
    {
        let n = r0.len() as int;
        let file_id = all[n].file_id;
        let rr = r0.push(outcome);
        if file_id < init.store.media_files@.len() {
            if Self::linked_by(all, r0, n, file_id) {
                let j = choose|j: int| 0 <= j < n && all[j].file_id == file_id && #[trigger] r0[j] is Ok;
                assert(s0.store.media_files@[file_id as int].media_id is Some);
            } else {
                assert(s0.store.media_files@[file_id as int] == init.store.media_files@[file_id as int]);
            }
            assert(Store::same_but_link(s0.store.media_files@[file_id as int], init.store.media_files@[file_id as int]));
        }
        assert forall|k: int| 0 <= k < rr.len() implies #[trigger] Self::pass_outcome(init, all, rr, k) by {
            if k < n {
                assert(Self::pass_outcome(init, all, r0, k));
                assert(rr[k] == r0[k]);
                lemma_linked_by_prefix(all, r0, rr, k);
            } else {
                lemma_linked_by_prefix(all, r0, rr, n);
            }
        }
        if outcome is Ok {
            assert(linked_file(s0.store, s1.store, file_id, outcome->Ok_0));
        }
        assert(rr.drop_last() =~= r0);
        assert(rr.take(n) =~= r0);
        if outcome is Ok {
            assert(Self::reconciled(s0, all[n].result->0, file_id, s1, outcome->Ok_0));
            assert(s0.events@.is_prefix_of(s1.events@));
        } else {
            assert(s1.store == s0.store && s1.events@ == s0.events@);
        }
        lemma_genres_kept_trans(init.store, s0.store, s1.store);
        assert(init.events@.is_prefix_of(s1.events@));
        assert forall|k: int| 0 <= k < rr.len() && (#[trigger] rr[k]) is Ok implies Self::success_shown(init, all, rr, s1, k) by {
            let m = rr[k]->Ok_0;
            let q = all[k].result->0;
            if k < n {
                assert(rr[k] == r0[k]);
                assert(r0[k] is Ok);
                assert(Self::pass_outcome(init, all, r0, k));
                assert(Self::success_shown(init, all, r0, s0, k));
                assert(rr.take(k) =~= r0.take(k));
                lemma_ok_count_prefix(r0, k);
                let f = all[k].file_id as int;
                assert(0 <= f < s0.store.media_files@.len());
                if outcome is Ok {
                    assert(s1.store.media@[m as int] == s0.store.media@[m as int]);
                    if f != file_id {
                        assert(s1.store.media_files@[f] == s0.store.media_files@[f]);
                    }
                }
                assert forall|g: int| 0 <= g < q.genres@.len() implies genre_linked(s1.store, #[trigger] q.genres@[g]@, m) by {
                    lemma_genre_linked_kept(s0.store, s1.store, q.genres@[g]@, m);
                }
                let idx = (init.events@.len() + Self::ok_count(r0.take(k))) as int;
                assert(s1.events@[idx] == s0.events@[idx]);
            } else {
                let ghost d = choose|d: InsertableMedia| describes(d, s0.lib, q.title->0@, q) && #[trigger] upserted(s0.store, s1.store, d, m);
                assert(s1.events@[(init.events@.len() + Self::ok_count(r0)) as int] == s1.events@.last());
            }
        }
        assert forall|i: int| init.store.media@.len() <= i < s1.store.media@.len()
            implies #[trigger] Self::created_by(init, all, rr, s1, i) by {
            if i < s0.store.media@.len() {
                assert(Self::created_by(init, all, r0, s0, i));
                let k = choose|k: int| 0 <= k < r0.len() && #[trigger] r0[k] is Ok && r0[k]->Ok_0 == i
                    && describes(s0.store.media@[i].data, init.lib, all[k].result->0.title->0@, all[k].result->0);
                assert(rr[k] == r0[k]);
                assert(s1.store.media@[i] == s0.store.media@[i]);
            } else {
                let m = outcome->Ok_0;
                let q = all[n].result->0;
                let ghost d = choose|d: InsertableMedia| describes(d, s0.lib, q.title->0@, q) && #[trigger] upserted(s0.store, s1.store, d, m);
                assert(rr[n] is Ok);
                assert(s1.store.media@[i].data == d);
            }
        }
        assert forall|i: int| 0 <= i < init.store.media_files@.len() implies {
            &&& Store::same_but_link(#[trigger] s1.store.media_files@[i], init.store.media_files@[i])
            &&& !Self::linked_by(all, rr, rr.len() as int, i as usize) ==> s1.store.media_files@[i] == init.store.media_files@[i]
        } by {
            assert(Store::same_but_link(s0.store.media_files@[i], init.store.media_files@[i]));
            if outcome is Ok && i != file_id {
                assert(s1.store.media_files@[i] == s0.store.media_files@[i]);
            }
            if !Self::linked_by(all, rr, rr.len() as int, i as usize) {
                lemma_linked_by_prefix(all, r0, rr, n);
                if outcome is Ok {
                    assert(rr[n] is Ok);
                    assert(i != file_id);
                }
            }
        }
        assert forall|i: int| 0 <= i < init.store.media@.len() implies #[trigger] s1.store.media@[i] == init.store.media@[i] by {
            assert(s0.store.media@[i] == init.store.media@[i]);
        }
        if forall|k: int| 0 <= k < rr.len() ==> (#[trigger] rr[k]) is Err {
            assert(rr[n] is Err);
            assert forall|k: int| 0 <= k < r0.len() implies (#[trigger] r0[k]) is Err by {
                assert(rr[k] == r0[k]);
            }
        }
    }

    /// Handling match `item` took `s0` to `s1` with `outcome`.
    pub open spec fn pass_step(s0: IterativeScanner, item: OrphanMatch, outcome: Result<usize, ReconcileError>, s1: IterativeScanner) -> bool {
        &&& s1.wf()
        &&& s1.lib == s0.lib
        &&& match item.result {
            None => outcome == Err::<usize, ReconcileError>(ReconcileError::ProviderMiss) && s1 == s0,
            Some(q) => match Self::reconcile_error(s0, q, item.file_id) {
                Some(e) => outcome == Err::<usize, ReconcileError>(e) && s1.store == s0.store && s1.events@ == s0.events@,
                None => outcome is Ok && Self::reconciled(s0, q, item.file_id, s1, outcome->Ok_0),
            },
        }
    }

    /// Reconciles each orphan with the provider's answer for it, in order.
    /// A missing answer leaves the orphan as it is; a failure on one orphan
    /// does not stop the others. Each outcome is the one `pass_outcome`
    /// gives; a file that no successful match names keeps its record.
    pub fn fix_orphans(&mut self, matches: Vec<OrphanMatch>) -> (r: Vec<Result<usize, ReconcileError>>)
        requires
            old(self).wf(),
        ensures
            r@.len() == matches@.len(),
            Self::pass_state(*old(self), matches@, r@, *final(self)),
    {
        let mut matches = matches;
        let ghost all = matches@;
        let ghost init = *self;
        let mut r: Vec<Result<usize, ReconcileError>> = Vec::new();
        while matches.len() > 0
            invariant
                r@.len() + matches@.len() == all.len(),
                matches@ == all.subrange(r@.len() as int, all.len() as int),
                init == *old(self),
                Self::pass_state(init, all, r@, *self),
            decreases matches@.len(),
        {
            let ghost s0 = *self;
            let ghost n = r@.len() as int;
            let ghost r0 = r@;
            let item = matches.remove(0);
            assert(item == all[n]);
            let file_id = item.file_id;
            let ghost res = item.result;
            let outcome = match item.result {
                None => Err(ReconcileError::ProviderMiss),
                Some(q) => self.match_media_to_tmdb(q, file_id),
            };
            r.push(outcome);
            proof {
                assert(matches@ =~= all.subrange(r@.len() as int, all.len() as int));
                Self::lemma_pass_step(init, all, r0, s0, outcome, *self);
                assert(r@ == r0.push(outcome));
            }
        }
        r
    }

    /// The outcome `o` registered a new record.
    pub open spec fn is_registered(o: Option<Result<Mounted, RegistrationError>>) -> bool {
        o is Some && o->0 is Ok && o->0->Ok_0 is Registered
    }

    pub open spec fn registered_id(o: Option<Result<Mounted, RegistrationError>>) -> usize {
        o->0->Ok_0->Registered_0
    }

    /// Some entry before position `k` with path `p` was registered.
    pub open spec fn registered_by(files: Seq<DiscoveredFile>, r: Seq<Option<Result<Mounted, RegistrationError>>>, k: int, p: Seq<char>) -> bool {
        exists|j: int| 0 <= j < k && files[j].path@ == p && #[trigger] Self::is_registered(r[j])
    }

    /// Some outcome in `r` registered the record at position `i`.
    pub open spec fn added_by(r: Seq<Option<Result<Mounted, RegistrationError>>>, i: int) -> bool {
        exists|k: int| 0 <= k < r.len() && #[trigger] Self::is_registered(r[k]) && Self::registered_id(r[k]) == i
    }

    /// The outcome `r[k]` of entry `k` of a pass over `files` that started
    /// from `s0` and has reached `s1`: what `mount_file` gives in the state
    /// before entry `k`, for a media name; `None` for any other name.
    pub open spec fn scan_outcome(
        s0: IterativeScanner,
        files: Seq<DiscoveredFile>,
        r: Seq<Option<Result<Mounted, RegistrationError>>>,
        k: int,
        s1: IterativeScanner,
    ) -> bool {
        let e = files[k];
        let name = e.file_name@;
        if !media_name(name) {
            r[k] is None
        } else if s0.store.has_file(e.path@) || Self::registered_by(files, r, k, e.path@) {
            r[k] == Some(Ok::<Mounted, RegistrationError>(Mounted::AlreadyKnown))
        } else if !parser_safe(name) || parsed_name_of(name) is None {
            r[k] == Some(Err::<Mounted, RegistrationError>(RegistrationError::ParseError))
        } else if e.probe is None {
            r[k] == Some(Err::<Mounted, RegistrationError>(RegistrationError::ProbeError))
        } else {
            let parsed = parsed_name_of(name)->0;
            let i = Self::registered_id(r[k]);
            let f = s1.store.media_files@[i as int];
            &&& Self::is_registered(r[k])
            &&& s0.store.media_files@.len() <= i < s1.store.media_files@.len()
            &&& f.id == i
            &&& f.library_id == s0.lib.id
            &&& f.media_id is None
            &&& f.target_file@ == e.path@
            &&& f.raw_name@ == parsed.0
            &&& f.raw_year == parsed.1
            &&& f.season == parsed.2
            &&& f.episode == parsed.3
            &&& f.probe == e.probe->0
        }
    }

    /// The state `s1` after the first `r.len()` entries of a registration
    /// pass over `files` that started from `s0`, with outcomes `r`.
    pub open spec fn scan_state(
        s0: IterativeScanner,
        files: Seq<DiscoveredFile>,
        r: Seq<Option<Result<Mounted, RegistrationError>>>,
        s1: IterativeScanner,
    ) -> bool {
        &&& s1.wf()
        &&& s1.lib == s0.lib
        &&& s1.events@ == s0.events@
        &&& s1.store.libraries@ == s0.store.libraries@
        &&& s1.store.media@ == s0.store.media@
        &&& s1.store.genres@ == s0.store.genres@
        &&& s1.store.genre_media@ == s0.store.genre_media@
        &&& s0.store.media_files@.is_prefix_of(s1.store.media_files@)
        &&& forall|k: int| 0 <= k < r.len() ==> #[trigger] Self::scan_outcome(s0, files, r, k, s1)
        &&& forall|i: int| s0.store.media_files@.len() <= i < s1.store.media_files@.len() ==> #[trigger] Self::added_by(r, i)
        &&& (forall|k: int| 0 <= k < r.len() ==> !#[trigger] Self::is_registered(r[k])) ==> s1.store == s0.store
    }

    /// Registers every discovered entry that names a media file, in order;
    /// the others get `None`. Each outcome is the one `scan_outcome` gives,
    /// and every record added is the registration of one such entry.
    pub fn start(&mut self, files: Vec<DiscoveredFile>) -> (r: Vec<Option<Result<Mounted, RegistrationError>>>)
        requires
            old(self).wf(),
        ensures
            r@.len() == files@.len(),
            Self::scan_state(*old(self), files@, r@, *final(self)),
    {
        let mut files = files;
        let ghost all = files@;
        let ghost init = *self;
        let mut r: Vec<Option<Result<Mounted, RegistrationError>>> = Vec::new();
        while files.len() > 0
            invariant
                r@.len() + files@.len() == all.len(),
                files@ == all.subrange(r@.len() as int, all.len() as int),
                init == *old(self),
                Self::scan_state(init, all, r@, *self),
            decreases files@.len(),
        {
            let ghost s0 = *self;
            let ghost n = r@.len() as int;
            let ghost r0 = r@;
            let item = files.remove(0);
            assert(item == all[n]);
            proof {
                lemma_scan_known(init, all, r0, s0, item.path@);
            }
            let outcome = if is_media_name(item.file_name.as_str()) {
                Some(self.mount_file(item.path, item.file_name.as_str(), item.probe))
            } else {
                None
            };
            r.push(outcome);
            proof {
                let rr = r@;
                assert(files@ =~= all.subrange(rr.len() as int, all.len() as int));
                assert(s0.store.media_files@.is_prefix_of(self.store.media_files@));
                assert forall|k: int| 0 <= k < rr.len() implies #[trigger] Self::scan_outcome(init, all, rr, k, *self) by {
                    if k < n {
                        assert(Self::scan_outcome(init, all, r0, k, s0));
                        assert(rr[k] == r0[k]);
                        lemma_registered_by_prefix(all, r0, rr, k);
                        if Self::is_registered(r0[k]) {
                            let i = Self::registered_id(r0[k]) as int;
                            if media_name(all[k].file_name@) && !(init.store.has_file(all[k].path@) || Self::registered_by(all, r0, k, all[k].path@)) {
                                assert(self.store.media_files@[i] == s0.store.media_files@[i]);
                            }
                        }
                    } else {
                        lemma_registered_by_prefix(all, r0, rr, n);
                        if Self::is_registered(outcome) {
                            let i = s0.store.media_files@.len() as int;
                            assert(self.store.media_files@[i] == self.store.media_files@.last());
                        }
                    }
                }
                assert forall|i: int| init.store.media_files@.len() <= i < self.store.media_files@.len()
                    implies #[trigger] Self::added_by(rr, i) by {
                    if i < s0.store.media_files@.len() {
                        assert(Self::added_by(r0, i));
                        let k = choose|k: int| 0 <= k < r0.len() && #[trigger] Self::is_registered(r0[k]) && Self::registered_id(r0[k]) == i;
                        assert(rr[k] == r0[k]);
                    } else {
                        assert(Self::is_registered(rr[n]) && Self::registered_id(rr[n]) == i);
                    }
                }
                if forall|k: int| 0 <= k < rr.len() ==> !#[trigger] Self::is_registered(rr[k]) {
                    assert(!Self::is_registered(rr[n]));
                    assert forall|k: int| 0 <= k < r0.len() implies !#[trigger] Self::is_registered(r0[k]) by {
                        assert(rr[k] == r0[k]);
                    }
                }
            }
        }
        r
    }
}

} // verus!
