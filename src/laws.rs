use vstd::prelude::*;
use crate::model::{DiscoveredFile, GenreLink, MediaFile, MediaType, OrphanMatch, ReconcileError, Mounted, ProbeFacts, QueryResult, RegistrationError};
use crate::outside::parsed_name_of;
use crate::text::{media_name, parser_safe};
use crate::scanner::{describes, genre_linked, lemma_scan_known, new_card, orphan_ids, IterativeScanner};
use crate::store::Store;

verus! {

/// Where no two elements of `s` satisfy `p`, at most one does, and one does
/// exactly when some element does.
proof fn lemma_count_unique<A>(s: Seq<A>, p: spec_fn(A) -> bool)
    requires
        forall|i: int, j: int| 0 <= i < s.len() && 0 <= j < s.len() && i != j && p(#[trigger] s[i]) ==> !p(#[trigger] s[j]),
    ensures
        Store::count_where(s, p) <= 1,
        Store::count_where(s, p) == 1 <==> exists|i: int| 0 <= i < s.len() && p(#[trigger] s[i]),
    decreases s.len(),
{
    if s.len() > 0 {
        let rest = s.drop_last();
        assert forall|i: int, j: int| 0 <= i < rest.len() && 0 <= j < rest.len() && i != j && p(#[trigger] rest[i])
            implies !p(#[trigger] rest[j]) by {
            assert(rest[i] == s[i] && rest[j] == s[j]);
        }
        lemma_count_unique(rest, p);
        assert(s[s.len() - 1] == s.last());
        if p(s.last()) {
            assert forall|i: int| 0 <= i < rest.len() implies !p(#[trigger] rest[i]) by {
                assert(rest[i] == s[i]);
            }
        }
        if exists|i: int| 0 <= i < s.len() && p(#[trigger] s[i]) {
            let i = choose|i: int| 0 <= i < s.len() && p(#[trigger] s[i]);
            if i < s.len() - 1 {
                assert(rest[i] == s[i]);
            }
        }
        if exists|i: int| 0 <= i < rest.len() && p(#[trigger] rest[i]) {
            let i = choose|i: int| 0 <= i < rest.len() && p(#[trigger] rest[i]);
            assert(rest[i] == s[i]);
        }
    }
}

/// Registering the same path twice leaves one technical record for it: the
/// store never holds two records with one path, and once a registration has
/// succeeded, the second is a no-op.
pub proof fn lemma_register_idempotent(
    s0: IterativeScanner,
    s1: IterativeScanner,
    s2: IterativeScanner,
    path: Seq<char>,
    file_name: Seq<char>,
    probe1: Option<ProbeFacts>,
    probe2: Option<ProbeFacts>,
    r1: Result<Mounted, RegistrationError>,
    r2: Result<Mounted, RegistrationError>,
)
    requires
        s0.wf(),
        IterativeScanner::mount_effect(s0, path, file_name, probe1, s1, r1),
        IterativeScanner::mount_effect(s1, path, file_name, probe2, s2, r2),
    ensures
        Store::files_at(s2.store.media_files@, path) <= 1,
        r1 is Ok ==> {
            &&& r2 == Ok::<Mounted, RegistrationError>(Mounted::AlreadyKnown)
            &&& s2.store == s1.store
            &&& Store::files_at(s2.store.media_files@, path) == 1
        },
{
    let files = s2.store.media_files@;
    let p = Store::path_is(path);
    assert forall|i: int, j: int| 0 <= i < files.len() && 0 <= j < files.len() && i != j && p(#[trigger] files[i])
        implies !p(#[trigger] files[j]) by {
        assert(files[i].target_file@ != files[j].target_file@);
    }
    lemma_count_unique(files, p);
    if r1 is Ok {
        if !s0.store.has_file(path) {
            let f1 = s1.store.media_files@;
            assert(f1[f1.len() - 1].target_file@ == path);
            assert(p(files[f1.len() - 1]));
        } else {
            let w = choose|w: int| 0 <= w < s0.store.media_files@.len() && #[trigger] s0.store.media_files@[w].target_file@ == path;
            assert(p(files[w]));
        }
    }
}

/// A technical record with a link to a media record is never selected as
/// an orphan again.
pub proof fn lemma_linked_not_orphan(s: IterativeScanner, i: int)
    requires
        s.wf(),
        0 <= i < s.store.media_files@.len(),
        s.store.media_files@[i].media_id is Some,
    ensures
        !orphan_ids(s.store.media_files@, s.lib.id).contains(i as usize),
{
    lemma_orphan_ids_are_orphans(s.store.media_files@, s.lib.id);
    if orphan_ids(s.store.media_files@, s.lib.id).contains(i as usize) {
        let k = choose|k: int| 0 <= k < orphan_ids(s.store.media_files@, s.lib.id).len()
            && orphan_ids(s.store.media_files@, s.lib.id)[k] == i as usize;
        let j = choose|j: int| 0 <= j < s.store.media_files@.len()
            && s.store.media_files@[j].id == orphan_ids(s.store.media_files@, s.lib.id)[k]
            && (#[trigger] s.store.media_files@[j]).media_id is None;
        assert(s.store.media_files@[j].id == j);
    }
}

proof fn lemma_orphan_ids_are_orphans(files: Seq<MediaFile>, library_id: i32)
    ensures
        forall|k: int| 0 <= k < orphan_ids(files, library_id).len() ==> exists|j: int| 0 <= j < files.len()
            && files[j].id == #[trigger] orphan_ids(files, library_id)[k]
            && (#[trigger] files[j]).media_id is None,
    decreases files.len(),
{
    if files.len() > 0 {
        let rest = files.drop_last();
        lemma_orphan_ids_are_orphans(rest, library_id);
        assert forall|k: int| 0 <= k < orphan_ids(files, library_id).len() implies exists|j: int| 0 <= j < files.len()
            && files[j].id == #[trigger] orphan_ids(files, library_id)[k]
            && (#[trigger] files[j]).media_id is None by {
            if k < orphan_ids(rest, library_id).len() {
                assert(orphan_ids(files, library_id)[k] == orphan_ids(rest, library_id)[k]);
                let j = choose|j: int| 0 <= j < rest.len() && rest[j].id == #[trigger] orphan_ids(rest, library_id)[k]
                    && (#[trigger] rest[j]).media_id is None;
                assert(rest[j] == files[j]);
            } else {
                assert(files[files.len() - 1] == files.last());
            }
        }
    }
}

/// A store holds at most one media record per library and name, and at most
/// one genre per name and one link per genre and media pair.
pub proof fn lemma_store_unique(s: Store, library_id: i32, name: Seq<char>, link: GenreLink)
    requires
        s.wf(),
    ensures
        Store::media_count(s.media@, library_id, name) <= 1,
        s.has_media(library_id, name) ==> Store::media_count(s.media@, library_id, name) == 1,
        Store::genre_count(s.genres@, name) <= 1,
        s.has_genre(name) ==> Store::genre_count(s.genres@, name) == 1,
        Store::link_count(s.genre_media@, link) <= 1,
{
    let pm = Store::key_is(library_id, name);
    assert forall|i: int, j: int| 0 <= i < s.media@.len() && 0 <= j < s.media@.len() && i != j && pm(#[trigger] s.media@[i])
        implies !pm(#[trigger] s.media@[j]) by {
        assert(!Store::same_key(s.media@[i], s.media@[j]));
    }
    lemma_count_unique(s.media@, pm);
    let pg = Store::name_is(name);
    assert forall|i: int, j: int| 0 <= i < s.genres@.len() && 0 <= j < s.genres@.len() && i != j && pg(#[trigger] s.genres@[i])
        implies !pg(#[trigger] s.genres@[j]) by {
        assert(s.genres@[i].name@ != s.genres@[j].name@);
    }
    lemma_count_unique(s.genres@, pg);
    let pl = Store::link_is(link);
    assert forall|i: int, j: int| 0 <= i < s.genre_media@.len() && 0 <= j < s.genre_media@.len() && i != j
        && pl(#[trigger] s.genre_media@[i]) implies !pl(#[trigger] s.genre_media@[j]) by {
        assert(s.genre_media@[i] != s.genre_media@[j]);
    }
    lemma_count_unique(s.genre_media@, pl);
    if s.has_media(library_id, name) {
        let i = choose|i: int| #[trigger] s.media_at(i, library_id, name);
        assert(pm(s.media@[i]));
    }
    if s.has_genre(name) {
        let i = choose|i: int| #[trigger] s.genre_at(i, name);
        assert(pg(s.genres@[i]));
    }
}

/// Any number of successive reconciliations whose answers carry the same
/// title bind every one of their files to one media record, of which the
/// store then holds exactly one, at most one more record than before.
pub proof fn lemma_same_title_one_record(
    states: Seq<IterativeScanner>,
    answers: Seq<QueryResult>,
    file_ids: Seq<usize>,
    media_ids: Seq<usize>,
    name: Seq<char>,
)
    requires
        answers.len() > 0,
        states.len() == answers.len() + 1,
        file_ids.len() == answers.len(),
        media_ids.len() == answers.len(),
        forall|i: int| 0 <= i < states.len() ==> (#[trigger] states[i]).wf() && states[i].lib == states[0].lib,
        forall|i: int| 0 <= i < answers.len() ==> {
            &&& (#[trigger] answers[i]).title is Some
            &&& answers[i].title->0@ == name
            &&& IterativeScanner::reconciled(states[i], answers[i], file_ids[i], states[i + 1], media_ids[i])
        },
    ensures
        forall|i: int| 0 <= i < media_ids.len() ==> #[trigger] media_ids[i] == media_ids[0],
        states.last().store.media_at(media_ids[0] as int, states[0].lib.id, name),
        Store::media_count(states.last().store.media@, states[0].lib.id, name) == 1,
        states.last().store.media@.len() <= states[0].store.media@.len() + 1,
        states.last().store.media_files@.len() == states[0].store.media_files@.len(),
        forall|i: int| 0 <= i < file_ids.len() ==> #[trigger] file_ids[i] < states[0].store.media_files@.len(),
        forall|i: int| 0 <= i < file_ids.len()
            ==> states.last().store.media_files@[#[trigger] file_ids[i] as int].media_id == Some(media_ids[0]),
    decreases answers.len(),
{
    let n = answers.len() - 1;
    let lib = states[0].lib.id;
    let last = states[n + 1];
    let prev = states[n];
    assert(states.last() == last);
    assert(answers[n].title is Some);
    assert(last.store.media_at(media_ids[n] as int, lib, name));
    if n == 0 {
        assert(prev == states[0]);
    } else {
        let st = states.subrange(0, n + 1);
        let an = answers.subrange(0, n);
        let fi = file_ids.subrange(0, n);
        let mi = media_ids.subrange(0, n);
        assert forall|i: int| 0 <= i < st.len() implies (#[trigger] st[i]).wf() && st[i].lib == st[0].lib by {
            assert(st[i] == states[i]);
            assert(states[i].wf());
        }
        assert forall|i: int| 0 <= i < an.len() implies {
            &&& (#[trigger] an[i]).title is Some
            &&& an[i].title->0@ == name
            &&& IterativeScanner::reconciled(st[i], an[i], fi[i], st[i + 1], mi[i])
        } by {
            assert(an[i] == answers[i]);
            assert(st[i] == states[i] && st[i + 1] == states[i + 1]);
        }
        lemma_same_title_one_record(st, an, fi, mi, name);
        assert(st.last() == prev);
        assert(mi[0] == media_ids[0]);
        assert(prev.store.has_media(lib, name));
        assert(last.store.media@ == prev.store.media@);
        assert(prev.store.media@[media_ids[0] as int].id == media_ids[0]);
        if media_ids[n] != media_ids[0] {
            assert(Store::same_key(last.store.media@[media_ids[0] as int], last.store.media@[media_ids[n] as int]));
        }
        assert(st[0] == states[0]);
        assert forall|i: int| 0 <= i < file_ids.len() implies #[trigger] file_ids[i] < states[0].store.media_files@.len() by {
            if i < n {
                assert(fi[i] == file_ids[i]);
            }
        }
        assert forall|i: int| 0 <= i < media_ids.len() implies #[trigger] media_ids[i] == media_ids[0] by {
            if i < n {
                assert(mi[i] == media_ids[i]);
            }
        }
        assert forall|i: int| 0 <= i < file_ids.len()
            implies last.store.media_files@[#[trigger] file_ids[i] as int].media_id == Some(media_ids[0]) by {
            if i < n {
                assert(fi[i] == file_ids[i]);
                assert(prev.store.media_files@[fi[i] as int].media_id == Some(media_ids[0]));
                if file_ids[i] != file_ids[n] {
                    assert(last.store.media_files@[file_ids[i] as int] == prev.store.media_files@[file_ids[i] as int]);
                }
            }
        }
    }
    assert(last.store.has_media(lib, name));
    lemma_store_unique(last.store, lib, name, GenreLink { genre_id: 0, media_id: 0 });
}

/// Two reconciliations whose answers both name genre `name` leave exactly one
/// genre of that name, linked to each resulting media record once.
pub proof fn lemma_shared_genre_once(
    s0: IterativeScanner,
    q1: QueryResult,
    f1: usize,
    s1: IterativeScanner,
    m1: usize,
    q2: QueryResult,
    f2: usize,
    s2: IterativeScanner,
    m2: usize,
    name: Seq<char>,
    i1: int,
    i2: int,
)
    requires
        s2.wf(),
        0 <= i1 < q1.genres@.len(),
        0 <= i2 < q2.genres@.len(),
        q1.genres@[i1]@ == name,
        q2.genres@[i2]@ == name,
        IterativeScanner::reconciled(s0, q1, f1, s1, m1),
        IterativeScanner::reconciled(s1, q2, f2, s2, m2),
    ensures
        Store::genre_count(s2.store.genres@, name) == 1,
        forall|g: usize, m: usize| Store::link_count(s2.store.genre_media@, GenreLink { genre_id: g, media_id: m }) <= 1,
        genre_linked(s2.store, name, m2),
{
    assert(genre_linked(s2.store, name, m2));
    let g = choose|g: int| #[trigger] s2.store.genre_at(g, name)
        && s2.store.genre_media@.contains(GenreLink { genre_id: g as usize, media_id: m2 });
    assert(s2.store.has_genre(name));
    lemma_store_unique(s2.store, 0, name, GenreLink { genre_id: 0, media_id: 0 });
    assert forall|g: usize, m: usize| Store::link_count(s2.store.genre_media@, GenreLink { genre_id: g, media_id: m }) <= 1 by {
        lemma_store_unique(s2.store, 0, name, GenreLink { genre_id: g, media_id: m });
    }
}

/// A second registration pass over the same entries registers nothing: the
/// store is left as the first pass left it, and each entry ends as already
/// known, skipped, or refused again.
pub proof fn lemma_second_pass_no_op(
    s0: IterativeScanner,
    files: Seq<DiscoveredFile>,
    r1: Seq<Option<Result<Mounted, RegistrationError>>>,
    s1: IterativeScanner,
    r2: Seq<Option<Result<Mounted, RegistrationError>>>,
    s2: IterativeScanner,
)
    requires
        r1.len() == files.len(),
        r2.len() == files.len(),
        IterativeScanner::scan_state(s0, files, r1, s1),
        IterativeScanner::scan_state(s1, files, r2, s2),
    ensures
        s2.store == s1.store,
        s2.events@ == s1.events@,
        forall|k: int| 0 <= k < r2.len() ==> !#[trigger] IterativeScanner::is_registered(r2[k]),
{
    assert forall|k: int| 0 <= k < r2.len() implies !#[trigger] IterativeScanner::is_registered(r2[k]) by {
        if IterativeScanner::is_registered(r2[k]) {
            let p = files[k].path@;
            assert(IterativeScanner::scan_outcome(s1, files, r2, k, s2));
            assert(!s1.store.has_file(p));
            lemma_scan_known(s0, files, r1, s1, p);
            assert(IterativeScanner::scan_outcome(s0, files, r1, k, s1));
            if IterativeScanner::registered_by(files, r1, k, p) {
                let j = choose|j: int| 0 <= j < k && files[j].path@ == p && #[trigger] IterativeScanner::is_registered(r1[j]);
                assert(IterativeScanner::registered_by(files, r1, r1.len() as int, p));
            }
            assert(IterativeScanner::is_registered(r1[k]));
            assert(IterativeScanner::registered_by(files, r1, r1.len() as int, p));
        }
    }
}

/// An orphan pass leaves untouched every record of another library, and every
/// record for which the provider had no answer at all; if no match of the
/// pass succeeds, it leaves the whole store and the events untouched.
pub proof fn lemma_pass_leaves_others(
    s0: IterativeScanner,
    ms: Seq<OrphanMatch>,
    r: Seq<Result<usize, ReconcileError>>,
    s1: IterativeScanner,
    i: int,
)
    requires
        r.len() == ms.len(),
        IterativeScanner::pass_state(s0, ms, r, s1),
        0 <= i < s0.store.media_files@.len(),
        s0.store.media_files@[i].library_id != s0.lib.id
            || forall|k: int| 0 <= k < ms.len() && (#[trigger] ms[k]).file_id == i ==> ms[k].result is None,
    ensures
        s1.store.media_files@[i] == s0.store.media_files@[i],
        (forall|k: int| 0 <= k < r.len() ==> (#[trigger] r[k]) is Err) ==> s1.store == s0.store && s1.events@ == s0.events@,
{
    if IterativeScanner::linked_by(ms, r, r.len() as int, i as usize) {
        let j = choose|j: int| 0 <= j < r.len() && ms[j].file_id == i as usize && #[trigger] r[j] is Ok;
        assert(IterativeScanner::pass_outcome(s0, ms, r, j));
    }
}

/// A first scan of one media file followed by an orphan pass in which the
/// provider answers with a titled match, in a movie library with an empty
/// store: the file is registered as record 0 with the parsed title and year;
/// the match creates media record 0 describing the answer, links the file and
/// each of the answer's genres to it, and raises exactly one new-card event.
pub proof fn lemma_single_file_scan(
    s0: IterativeScanner,
    e: DiscoveredFile,
    r1: Seq<Option<Result<Mounted, RegistrationError>>>,
    s1: IterativeScanner,
    q: QueryResult,
    r2: Seq<Result<usize, ReconcileError>>,
    s2: IterativeScanner,
)
    requires
        s0.store.media_files@.len() == 0,
        s0.store.media@.len() == 0,
        s0.lib.media_type == MediaType::Movie,
        media_name(e.file_name@),
        parser_safe(e.file_name@),
        parsed_name_of(e.file_name@) is Some,
        e.probe is Some,
        q.title is Some,
        r1.len() == 1,
        IterativeScanner::scan_state(s0, seq![e], r1, s1),
        r2.len() == 1,
        IterativeScanner::pass_state(s1, seq![OrphanMatch { file_id: 0, result: Some(q) }], r2, s2),
    ensures
        r1[0] == Some(Ok::<Mounted, RegistrationError>(Mounted::Registered(0))),
        s1.store.media_files@.len() == 1,
        s1.store.media_files@[0].raw_name@ == (parsed_name_of(e.file_name@)->0).0,
        s1.store.media_files@[0].raw_year == (parsed_name_of(e.file_name@)->0).1,
        r2[0] == Ok::<usize, ReconcileError>(0),
        s2.store.media@.len() == 1,
        describes(s2.store.media@[0].data, s0.lib, q.title->0@, q),
        s2.store.media_files@[0].media_id == Some(0usize),
        forall|g: int| 0 <= g < q.genres@.len() ==> genre_linked(s2.store, #[trigger] q.genres@[g]@, 0),
        s2.events@.len() == s0.events@.len() + 1,
        new_card(s2.events@.last(), s0.lib.id, 0),
{
    let files = seq![e];
    let ms = seq![OrphanMatch { file_id: 0, result: Some(q) }];
    assert(files[0] == e);
    assert(!s0.store.has_file(e.path@));
    assert(!IterativeScanner::registered_by(files, r1, 0, e.path@));
    assert(IterativeScanner::scan_outcome(s0, files, r1, 0, s1));
    if s1.store.media_files@.len() > 1 {
        assert(IterativeScanner::added_by(r1, 0));
        assert(IterativeScanner::added_by(r1, 1));
    }
    assert(ms[0].file_id == 0);
    assert(s1.store.media_files@[0].media_id is None);
    assert(!IterativeScanner::linked_by(ms, r2, 0, 0));
    assert(IterativeScanner::pass_outcome(s1, ms, r2, 0));
    assert(r2[0] is Ok);
    assert(IterativeScanner::success_shown(s1, ms, r2, s2, 0));
    let m = r2[0]->Ok_0;
    assert(r2.drop_last() =~= Seq::<Result<usize, ReconcileError>>::empty());
    assert(r2.take(0) =~= Seq::<Result<usize, ReconcileError>>::empty());
    assert(IterativeScanner::ok_count(r2) == 1);
    assert(s1.store.media@.len() == 0);
    assert(s2.store.media@.len() >= 1);
    if s2.store.media@.len() > 1 {
        assert(IterativeScanner::created_by(s1, ms, r2, s2, 0));
        assert(IterativeScanner::created_by(s1, ms, r2, s2, 1));
    }
    assert(s2.store.media@[m as int].id == m);
    assert(m == 0);
    assert(IterativeScanner::created_by(s1, ms, r2, s2, 0));
}

} // verus!
