use vstd::prelude::*;
use crate::artifact::{artifact_step, expected_artifact_tag, ArtifactState};
use crate::build_log::{build_step, BuildOutput, BuildState};
use crate::error::{ErrorView, Stage, Tag};
use crate::event::{EventKindView, EventView};
use crate::log::{find_build, lemma_find_build, log_step, lookup, ui_of, with_build};
use crate::token::{parse_number, tag_text};

verus! {

proof fn lemma_find_same_names(
    e1: Seq<(Seq<char>, BuildState)>,
    e2: Seq<(Seq<char>, BuildState)>,
    name: Seq<char>,
)
    requires
        e1.len() == e2.len(),
        forall|j: int| 0 <= j < e1.len() ==> (#[trigger] e1[j]).0 == e2[j].0,
    ensures
        find_build(e1, name) == find_build(e2, name),
    decreases e1.len(),
{
    if e1.len() > 0 {
        assert(e1.last().0 == e2.last().0);
        lemma_find_same_names(e1.drop_last(), e2.drop_last(), name);
    }
}

proof fn lemma_find_push(e: Seq<(Seq<char>, BuildState)>, name: Seq<char>, b: BuildState, m: Seq<char>)
    ensures
        find_build(e.push((name, b)), m) == if m == name {
            e.len() as int
        } else {
            find_build(e, m)
        },
{
    assert(e.push((name, b)).drop_last() =~= e);
}

/// Setting the decoder of one build changes the state seen for that build name
/// and no other.
pub proof fn lemma_with_build_lookup(
    e: Seq<(Seq<char>, BuildState)>,
    name: Seq<char>,
    b: BuildState,
    m: Seq<char>,
)
    ensures
        lookup(with_build(e, name, b), m) == if m == name {
            b
        } else {
            lookup(e, m)
        },
{
    lemma_find_build(e, name);
    lemma_find_build(e, m);
    let i = find_build(e, name);
    if i >= 0 {
        let u = e.update(i, (name, b));
        lemma_find_same_names(u, e, m);
        lemma_find_same_names(u, e, name);
        lemma_find_build(e, m);
        if m != name && find_build(e, m) >= 0 {
            assert(find_build(e, m) != i);
        }
    } else {
        lemma_find_push(e, name, b, m);
    }
}

/// Builds are independent: what a build-scoped line does depends only on the state
/// of its own build. Two logs that agree on that build give the same outcome and the
/// same events, and the line leaves every other build as it was. Applied line by line,
/// interleaving the lines of builds with different names yields the same per-build
/// events as feeding each build's lines contiguously.
pub proof fn lemma_builds_independent(
    e1: Seq<(Seq<char>, BuildState)>,
    e2: Seq<(Seq<char>, BuildState)>,
    toks: Seq<Seq<char>>,
)
    requires
        toks.len() >= 2,
        toks[1].len() > 0,
        lookup(e1, toks[1]) == lookup(e2, toks[1]),
    ensures
        log_step(e1, toks) is Ok <==> log_step(e2, toks) is Ok,
        log_step(e1, toks) is Err ==> log_step(e1, toks) == log_step(e2, toks),
        log_step(e1, toks) is Ok ==> log_step(e1, toks)->Ok_0.1 == log_step(e2, toks)->Ok_0.1
            && lookup(log_step(e1, toks)->Ok_0.0, toks[1]) == lookup(
            log_step(e2, toks)->Ok_0.0,
            toks[1],
        ),
        log_step(e1, toks) is Ok ==> forall|m: Seq<char>|
            m != toks[1] ==> #[trigger] lookup(log_step(e1, toks)->Ok_0.0, m) == lookup(e1, m),
{
    match build_step(lookup(e1, toks[1]), toks.skip(2)) {
        Ok(p) => {
            lemma_with_build_lookup(e1, toks[1], p.0, toks[1]);
            lemma_with_build_lookup(e2, toks[1], p.0, toks[1]);
            assert forall|m: Seq<char>| m != toks[1] implies #[trigger] lookup(
                log_step(e1, toks)->Ok_0.0,
                m,
            ) == lookup(e1, m) by {
                lemma_with_build_lookup(e1, toks[1], p.0, m);
            }
        },
        Err(_) => {},
    }
}

/// A global line never touches the build decoders; a well-formed one is delivered
/// at once as one notice carrying its timestamp and text.
pub proof fn lemma_global_line(entries: Seq<(Seq<char>, BuildState)>, toks: Seq<Seq<char>>)
    requires
        toks.len() >= 2,
        toks[1].len() == 0,
    ensures
        log_step(entries, toks) is Ok ==> log_step(entries, toks)->Ok_0.0 == entries,
        toks.len() >= 5 && toks[2] == "ui"@ && ui_of(toks[3], toks[4]) is Some ==> log_step(
            entries,
            toks,
        ) is Ok && log_step(entries, toks)->Ok_0.1.len() == 1 && log_step(
            entries,
            toks,
        )->Ok_0.1[0].timestamp == toks[0] && log_step(entries, toks)->Ok_0.1[0].kind
            == EventKindView::UI(ui_of(toks[3], toks[4])->Some_0),
{
}

/// A build-scoped line whose tag is not the one its build expects is fatal and names
/// both tags; the log's error leaves the state and the events untouched.
pub proof fn lemma_build_tag_mismatch(entries: Seq<(Seq<char>, BuildState)>, toks: Seq<Seq<char>>)
    requires
        toks.len() >= 3,
        toks[1].len() > 0,
        !(lookup(entries, toks[1]) is Done),
        toks[2] != tag_text(
            if lookup(entries, toks[1]) is Root {
                Tag::ArtifactCount
            } else {
                Tag::Artifact
            },
        ),
    ensures
        log_step(entries, toks) == Err::<(Seq<(Seq<char>, BuildState)>, Seq<crate::event::EventView>), ErrorView>(
            ErrorView::UnexpectedToken {
                stage: Stage::Build,
                expected: if lookup(entries, toks[1]) is Root {
                    Tag::ArtifactCount
                } else {
                    Tag::Artifact
                },
                actual: toks[2],
            },
        ),
{
    assert(toks.skip(2)[0] == toks[2]);
}

/// An artifact line whose tag is not the one its artifact's state expects is fatal
/// and names both tags.
pub proof fn lemma_artifact_tag_mismatch(
    entries: Seq<(Seq<char>, BuildState)>,
    toks: Seq<Seq<char>>,
    k: nat,
)
    requires
        toks.len() >= 5,
        toks[1].len() > 0,
        lookup(entries, toks[1]) is ListingArtifacts,
        toks[2] == tag_text(Tag::Artifact),
        parse_number(toks[3]) == Some(k),
        k < lookup(entries, toks[1])->ListingArtifacts_artifacts.len(),
        !(lookup(entries, toks[1])->ListingArtifacts_artifacts[k as int] is Done),
        toks[4] != tag_text(
            expected_artifact_tag(lookup(entries, toks[1])->ListingArtifacts_artifacts[k as int]),
        ),
    ensures
        log_step(entries, toks) == Err::<(Seq<(Seq<char>, BuildState)>, Seq<crate::event::EventView>), ErrorView>(
            ErrorView::UnexpectedToken {
                stage: Stage::Artifact,
                expected: expected_artifact_tag(
                    lookup(entries, toks[1])->ListingArtifacts_artifacts[k as int],
                ),
                actual: toks[4],
            },
        ),
{
    let t = toks.skip(2);
    assert(t[0] == toks[2] && t[1] == toks[3]);
    assert(t.skip(2)[0] == toks[4]);
}

/// A completed artifact takes no further line, so its completion is reported once.
pub proof fn lemma_artifact_done_is_final(a: ArtifactState, toks: Seq<Seq<char>>)
    requires
        a is Done,
    ensures
        artifact_step(a, toks) == Err::<ArtifactState, ErrorView>(
            ErrorView::AlreadyFinished { stage: Stage::Artifact },
        ),
{
}

/// A completed build takes no further line, so its completion is reported once.
pub proof fn lemma_build_done_is_final(b: BuildState, toks: Seq<Seq<char>>)
    requires
        b is Done,
    ensures
        build_step(b, toks) is Err,
{
}


/// Lines applied in order to an artifact decoder.
pub open spec fn artifact_run(s: ArtifactState, lines: Seq<Seq<Seq<char>>>) -> Result<
    ArtifactState,
    ErrorView,
>
    decreases lines.len(),
{
    if lines.len() == 0 {
        Ok(s)
    } else {
        match artifact_run(s, lines.drop_last()) {
            Ok(s2) => artifact_step(s2, lines.last()),
            Err(e) => Err(e),
        }
    }
}

/// The complete record of one artifact: its header lines, one `file` line for each
/// slot, naming slot `perm[j]` by the token `idx[j]`, then `end`.
pub open spec fn artifact_record(
    builder_id: Seq<char>,
    id: Seq<char>,
    string: Seq<char>,
    count: Seq<char>,
    idx: Seq<Seq<char>>,
    perm: Seq<nat>,
    files: Seq<Seq<char>>,
) -> Seq<Seq<Seq<char>>> {
    seq![
        seq![tag_text(Tag::BuilderId), builder_id],
        seq![tag_text(Tag::Id), id],
        seq![tag_text(Tag::Str), string],
        seq![tag_text(Tag::FilesCount), count],
    ] + Seq::new(
        files.len(),
        |j: int| seq![tag_text(Tag::File), idx[j], files[perm[j] as int]],
    ) + seq![seq![tag_text(Tag::End)]]
}

pub open spec fn is_slot_order(idx: Seq<Seq<char>>, perm: Seq<nat>, n: nat) -> bool {
    &&& idx.len() == n
    &&& perm.len() == n
    &&& forall|j: int| 0 <= j < n ==> #[trigger] parse_number(idx[j]) == Some(perm[j]) && perm[j] < n
    &&& forall|k: nat| k < n ==> #[trigger] names_slot(perm, k)
}

/// Some `file` line names slot `k`.
pub open spec fn names_slot(perm: Seq<nat>, k: nat) -> bool {
    exists|j: int| 0 <= j < perm.len() && #[trigger] perm[j] == k
}

proof fn lemma_record_files(
    builder_id: Seq<char>,
    id: Seq<char>,
    string: Seq<char>,
    count: Seq<char>,
    idx: Seq<Seq<char>>,
    perm: Seq<nat>,
    files: Seq<Seq<char>>,
    k: nat,
)
    requires
        parse_number(count) == Some(files.len()),
        is_slot_order(idx, perm, files.len()),
        k <= files.len(),
    ensures
        ({
            let r = artifact_run(
                ArtifactState::Root,
                artifact_record(builder_id, id, string, count, idx, perm, files).subrange(
                    0,
                    4 + k as int,
                ),
            );
            &&& r is Ok
            &&& r->Ok_0 is ListingFiles
            &&& r->Ok_0->ListingFiles_builder_id == builder_id
            &&& r->Ok_0->ListingFiles_id == crate::artifact::id_of(id)
            &&& r->Ok_0->ListingFiles_count == files.len() - k
            &&& r->Ok_0->ListingFiles_files.len() == files.len()
            &&& forall|s: int|
                0 <= s < files.len() && (#[trigger] r->Ok_0->ListingFiles_files[s]) is Some
                    ==> r->Ok_0->ListingFiles_files[s] == Some(files[s])
            &&& forall|j: int|
                0 <= j < k ==> (#[trigger] r->Ok_0->ListingFiles_files[perm[j] as int]) is Some
        }),
    decreases k,
{
    let lines = artifact_record(builder_id, id, string, count, idx, perm, files);
    let n = files.len();
    if k == 0 {
        let p0 = lines.subrange(0, 0);
        let p1 = lines.subrange(0, 1);
        let p2 = lines.subrange(0, 2);
        let p3 = lines.subrange(0, 3);
        let p4 = lines.subrange(0, 4);
        assert(p1.drop_last() =~= p0);
        assert(p2.drop_last() =~= p1);
        assert(p3.drop_last() =~= p2);
        assert(p4.drop_last() =~= p3);
        assert(lines[0] == seq![tag_text(Tag::BuilderId), builder_id]);
        assert(lines[1] == seq![tag_text(Tag::Id), id]);
        assert(lines[2] == seq![tag_text(Tag::Str), string]);
        assert(lines[3] == seq![tag_text(Tag::FilesCount), count]);
        assert(p1.last() == lines[0] && p2.last() == lines[1]);
        assert(p3.last() == lines[2] && p4.last() == lines[3]);
        assert(artifact_run(ArtifactState::Root, p0) == Ok::<ArtifactState, ErrorView>(
            ArtifactState::Root,
        ));
        let s1 = ArtifactState::BuilderId { builder_id };
        assert(artifact_step(ArtifactState::Root, lines[0]) == Ok::<ArtifactState, ErrorView>(s1));
        assert(artifact_run(ArtifactState::Root, p1) == Ok::<ArtifactState, ErrorView>(s1));
        let s2 = ArtifactState::Id { builder_id, id: crate::artifact::id_of(id) };
        assert(artifact_step(s1, lines[1]) == Ok::<ArtifactState, ErrorView>(s2));
        assert(artifact_run(ArtifactState::Root, p2) == Ok::<ArtifactState, ErrorView>(s2));
        let s3 = ArtifactState::Str { builder_id, id: crate::artifact::id_of(id), string };
        assert(artifact_step(s2, lines[2]) == Ok::<ArtifactState, ErrorView>(s3));
        assert(artifact_run(ArtifactState::Root, p3) == Ok::<ArtifactState, ErrorView>(s3));
        let s4 = ArtifactState::ListingFiles {
            builder_id,
            id: crate::artifact::id_of(id),
            string,
            count: n,
            files: Seq::new(n, |i: int| None),
        };
        assert(artifact_step(s3, lines[3]) == Ok::<ArtifactState, ErrorView>(s4));
        assert(artifact_run(ArtifactState::Root, p4) == Ok::<ArtifactState, ErrorView>(s4));
    } else {
        lemma_record_files(builder_id, id, string, count, idx, perm, files, (k - 1) as nat);
        let prev = lines.subrange(0, 4 + k - 1 as int);
        let cur = lines.subrange(0, 4 + k as int);
        assert(cur.drop_last() =~= prev);
        let j = k - 1;
        assert(lines[4 + j] == seq![tag_text(Tag::File), idx[j], files[perm[j] as int]]);
        assert(parse_number(idx[j]) == Some(perm[j]) && perm[j] < n);
        let r0 = artifact_run(ArtifactState::Root, prev);
        let r = artifact_run(ArtifactState::Root, cur);
        assert(r->Ok_0->ListingFiles_files == r0->Ok_0->ListingFiles_files.update(
            perm[j] as int,
            Some(files[perm[j] as int]),
        ));
        assert forall|jj: int| 0 <= jj < k implies (#[trigger] r->Ok_0->ListingFiles_files[perm[jj] as int]) is Some by {
            if jj < k - 1 {
                assert(parse_number(idx[jj]) == Some(perm[jj]) && perm[jj] < n);
                assert(r0->Ok_0->ListingFiles_files[perm[jj] as int] is Some);
            }
        }
    }
}

/// Feeding an artifact's complete record, with its `file` lines in any slot order,
/// completes it, and the completed artifact lists the file names in slot order.
pub proof fn lemma_artifact_record_completes(
    builder_id: Seq<char>,
    id: Seq<char>,
    string: Seq<char>,
    count: Seq<char>,
    idx: Seq<Seq<char>>,
    perm: Seq<nat>,
    files: Seq<Seq<char>>,
)
    requires
        parse_number(count) == Some(files.len()),
        is_slot_order(idx, perm, files.len()),
    ensures
        artifact_run(
            ArtifactState::Root,
            artifact_record(builder_id, id, string, count, idx, perm, files),
        ) == Ok::<ArtifactState, ErrorView>(
            ArtifactState::Done(
                crate::event::ArtifactView {
                    builder_id,
                    id: crate::artifact::id_of(id),
                    files,
                },
            ),
        ),
{
    let n = files.len();
    lemma_record_files(builder_id, id, string, count, idx, perm, files, n);
    let lines = artifact_record(builder_id, id, string, count, idx, perm, files);
    assert(lines.drop_last() =~= lines.subrange(0, 4 + n as int));
    assert(lines.last() == seq![tag_text(Tag::End)]);
    let r0 = artifact_run(ArtifactState::Root, lines.subrange(0, 4 + n as int));
    let fs = r0->Ok_0->ListingFiles_files;
    assert forall|s: int| 0 <= s < n implies (#[trigger] fs[s]) is Some && fs[s] == Some(files[s]) by {
        assert(names_slot(perm, s as nat));
        let w = choose|j: int| 0 <= j < perm.len() && #[trigger] perm[j] == s as nat;
        assert(fs[perm[w] as int] is Some);
    }
    assert(crate::artifact::all_filled(fs));
    assert(crate::artifact::filled_names(fs) =~= files);
}


/// A build completes on exactly the line that completes the last of its declared
/// artifacts: that line reports the artifact and then the build, whose artifacts
/// are all the completed slots in slot order. Any other accepted line leaves the
/// remaining count equal to the number of incomplete slots and reports no build.
pub proof fn lemma_build_completion(s: BuildState, toks: Seq<Seq<char>>)
    requires
        crate::build_log::build_wf(s),
        build_step(s, toks) is Ok,
    ensures
        ({
            let s2 = build_step(s, toks)->Ok_0.0;
            let outs = build_step(s, toks)->Ok_0.1;
            &&& crate::build_log::build_wf(s2)
            &&& s2 is Done ==> {
                &&& s is ListingArtifacts
                &&& s->ListingArtifacts_count == 1
                &&& outs.len() == 2
                &&& outs[0] is Artifact
                &&& outs[1] == BuildOutput::Done(s2->Done_0)
                &&& s2->Done_0.artifacts.len() == s->ListingArtifacts_artifacts.len()
                &&& {
                    let slots = s->ListingArtifacts_artifacts.update(
                        parse_number(toks[1])->Some_0 as int,
                        ArtifactState::Done(outs[0]->Artifact_0),
                    );
                    &&& forall|i: int| 0 <= i < slots.len() ==> (#[trigger] slots[i]) is Done
                    &&& s2->Done_0.artifacts == crate::build_log::done_artifacts(slots)
                }
            }
            &&& !(s2 is Done) ==> forall|i: int| 0 <= i < outs.len() ==> !(#[trigger] outs[i] is Done)
        }),
{
    match s {
        BuildState::Root => {
            let n = parse_number(toks[1])->Some_0;
            crate::build_log::lemma_pending_all_root(n);
        },
        BuildState::ListingArtifacts { count, artifacts } => {
            let k = parse_number(toks[1])->Some_0;
            let a = artifact_step(artifacts[k as int], toks.skip(2))->Ok_0;
            assert(!(artifacts[k as int] is Done));
            crate::build_log::lemma_pending_update(artifacts, k as int, a);
            let slots = artifacts.update(k as int, a);
            if a is Done && count == 1 {
                crate::build_log::lemma_pending_zero(slots);
                assert(slots == artifacts.update(
                    k as int,
                    ArtifactState::Done(build_step(s, toks)->Ok_0.1[0]->Artifact_0),
                ));
            }
        },
        BuildState::Done(_) => {},
    }
}


/// Lines applied in order to the log: the final entries and, for each line, its
/// build name and the events it delivered.
pub open spec fn log_run(
    entries: Seq<(Seq<char>, BuildState)>,
    lines: Seq<Seq<Seq<char>>>,
) -> Result<(Seq<(Seq<char>, BuildState)>, Seq<(Seq<char>, Seq<EventView>)>), ErrorView>
    decreases lines.len(),
{
    if lines.len() == 0 {
        Ok((entries, Seq::empty()))
    } else {
        match log_run(entries, lines.drop_last()) {
            Err(e) => Err(e),
            Ok(p) => match log_step(p.0, lines.last()) {
                Err(e) => Err(e),
                Ok(q) => Ok((q.0, p.1.push((lines.last()[1], q.1)))),
            },
        }
    }
}

/// The lines that name build `x`, in order.
pub open spec fn lines_of(lines: Seq<Seq<Seq<char>>>, x: Seq<char>) -> Seq<Seq<Seq<char>>>
    decreases lines.len(),
{
    if lines.len() == 0 {
        lines
    } else if lines.last().len() >= 2 && lines.last()[1] == x {
        lines_of(lines.drop_last(), x).push(lines.last())
    } else {
        lines_of(lines.drop_last(), x)
    }
}

/// The events delivered by the lines that name build `x`, line by line.
pub open spec fn events_of(trace: Seq<(Seq<char>, Seq<EventView>)>, x: Seq<char>) -> Seq<
    Seq<EventView>,
>
    decreases trace.len(),
{
    if trace.len() == 0 {
        Seq::empty()
    } else if trace.last().0 == x {
        events_of(trace.drop_last(), x).push(trace.last().1)
    } else {
        events_of(trace.drop_last(), x)
    }
}

/// Interleaving does not matter: in any stream that decodes without error, the
/// lines of build `x` deliver, line by line, the same events as the same lines fed
/// alone, whatever lines of other builds and global lines stand between them; and
/// build `x` ends in the same state.
pub proof fn lemma_interleaving(
    entries: Seq<(Seq<char>, BuildState)>,
    lines: Seq<Seq<Seq<char>>>,
    x: Seq<char>,
)
    requires
        x.len() > 0,
        log_run(entries, lines) is Ok,
    ensures
        log_run(entries, lines_of(lines, x)) is Ok,
        events_of(log_run(entries, lines)->Ok_0.1, x) == events_of(
            log_run(entries, lines_of(lines, x))->Ok_0.1,
            x,
        ),
        lookup(log_run(entries, lines)->Ok_0.0, x) == lookup(
            log_run(entries, lines_of(lines, x))->Ok_0.0,
            x,
        ),
    decreases lines.len(),
{
    if lines.len() > 0 {
        let prev = lines.drop_last();
        let l = lines.last();
        lemma_interleaving(entries, prev, x);
        let pm = log_run(entries, prev)->Ok_0;
        let px = log_run(entries, lines_of(prev, x))->Ok_0;
        assert(log_step(pm.0, l) is Ok);
        assert(l.len() >= 2);
        let tm = log_run(entries, lines)->Ok_0.1;
        assert(tm.drop_last() =~= pm.1);
        assert(tm.last() == (l[1], log_step(pm.0, l)->Ok_0.1));
        if l[1] == x {
            let lx = lines_of(lines, x);
            assert(lx.drop_last() == lines_of(prev, x));
            assert(lx.last() == l);
            lemma_builds_independent(pm.0, px.0, l);
            let tx = log_run(entries, lx)->Ok_0.1;
            assert(tx.drop_last() =~= px.1);
            assert(tx.last() == (l[1], log_step(px.0, l)->Ok_0.1));
        } else if l[1].len() > 0 {
            lemma_builds_independent(pm.0, pm.0, l);
        } else {
            lemma_global_line(pm.0, l);
        }
    }
}


/// Lines applied in order to a build decoder: the final state and, for each line,
/// what it reported.
pub open spec fn build_run(s: BuildState, lines: Seq<Seq<Seq<char>>>) -> Result<
    (BuildState, Seq<Seq<BuildOutput>>),
    ErrorView,
>
    decreases lines.len(),
{
    if lines.len() == 0 {
        Ok((s, Seq::empty()))
    } else {
        match build_run(s, lines.drop_last()) {
            Err(e) => Err(e),
            Ok(p) => match build_step(p.0, lines.last()) {
                Err(e) => Err(e),
                Ok(q) => Ok((q.0, p.1.push(q.1))),
            },
        }
    }
}

/// The slot that an `artifact` line addresses.
pub open spec fn slot_of(l: Seq<Seq<char>>) -> Option<nat> {
    if l.len() >= 2 {
        parse_number(l[1])
    } else {
        None
    }
}

/// The artifact lines carried by the build lines that address slot `k`, in order.
pub open spec fn slot_lines(lines: Seq<Seq<Seq<char>>>, k: nat) -> Seq<Seq<Seq<char>>>
    decreases lines.len(),
{
    if lines.len() == 0 {
        Seq::empty()
    } else if slot_of(lines.last()) == Some(k) {
        slot_lines(lines.drop_last(), k).push(lines.last().skip(2))
    } else {
        slot_lines(lines.drop_last(), k)
    }
}

/// Every line is an `artifact` line for a slot below `n`.
pub open spec fn artifact_lines(lines: Seq<Seq<Seq<char>>>, n: nat) -> bool {
    forall|i: int|
        0 <= i < lines.len() ==> {
            &&& (#[trigger] lines[i]).len() >= 2
            &&& lines[i][0] == tag_text(Tag::Artifact)
            &&& slot_of(lines[i]) is Some
            &&& slot_of(lines[i])->Some_0 < n
        }
}

proof fn lemma_run_prefix(s: ArtifactState, a: Seq<Seq<Seq<char>>>, m: int)
    requires
        0 <= m <= a.len(),
        artifact_run(s, a) is Ok,
    ensures
        artifact_run(s, a.subrange(0, m)) is Ok,
        m < a.len() ==> !(artifact_run(s, a.subrange(0, m))->Ok_0 is Done),
    decreases a.len(),
{
    if m == a.len() {
        assert(a.subrange(0, m) =~= a);
    } else {
        let d = a.drop_last();
        assert(artifact_run(s, d) is Ok);
        assert(!(artifact_run(s, d)->Ok_0 is Done));
        lemma_run_prefix(s, d, m);
        assert(d.subrange(0, m) =~= a.subrange(0, m));
    }
}

proof fn lemma_slot_lines_prefix(lines: Seq<Seq<Seq<char>>>, m: int, k: nat)
    requires
        0 <= m <= lines.len(),
    ensures
        slot_lines(lines.subrange(0, m), k).len() <= slot_lines(lines, k).len(),
        slot_lines(lines.subrange(0, m), k) == slot_lines(lines, k).subrange(
            0,
            slot_lines(lines.subrange(0, m), k).len() as int,
        ),
        m < lines.len() && slot_of(lines.last()) == Some(k) ==> slot_lines(
            lines.subrange(0, m),
            k,
        ).len() < slot_lines(lines, k).len(),
    decreases lines.len(),
{
    if m == lines.len() {
        assert(lines.subrange(0, m) =~= lines);
        assert(slot_lines(lines, k).subrange(0, slot_lines(lines, k).len() as int) =~= slot_lines(
            lines,
            k,
        ));
    } else {
        let d = lines.drop_last();
        lemma_slot_lines_prefix(d, m, k);
        assert(d.subrange(0, m) =~= lines.subrange(0, m));
        let sd = slot_lines(d, k);
        let sp = slot_lines(lines.subrange(0, m), k);
        if slot_of(lines.last()) == Some(k) {
            assert(sd.push(lines.last().skip(2)).subrange(0, sp.len() as int) =~= sd.subrange(
                0,
                sp.len() as int,
            ));
        }
    }
}

proof fn lemma_pending_all_done(slots: Seq<ArtifactState>)
    requires
        forall|i: int| 0 <= i < slots.len() ==> (#[trigger] slots[i]) is Done,
    ensures
        crate::build_log::pending(slots) == 0,
    decreases slots.len(),
{
    if slots.len() > 0 {
        assert forall|i: int| 0 <= i < slots.drop_last().len() implies (
        #[trigger] slots.drop_last()[i]) is Done by {
            assert(slots.drop_last()[i] == slots[i]);
        }
        lemma_pending_all_done(slots.drop_last());
    }
}


/// A build's record: its `artifact-count` line, then its `artifact` lines.
pub open spec fn build_record(count: Seq<char>, lines: Seq<Seq<Seq<char>>>) -> Seq<
    Seq<Seq<char>>,
> {
    seq![seq![tag_text(Tag::ArtifactCount), count]] + lines
}

/// `count` declares `arts.len()` artifacts, and the lines for each slot `k` form a
/// complete record of artifact `arts[k]`.
pub open spec fn complete_build_lines(
    count: Seq<char>,
    lines: Seq<Seq<Seq<char>>>,
    arts: Seq<crate::event::ArtifactView>,
) -> bool {
    &&& parse_number(count) == Some(arts.len())
    &&& lines.len() > 0
    &&& artifact_lines(lines, arts.len())
    &&& forall|k: nat|
        k < arts.len() ==> #[trigger] artifact_run(ArtifactState::Root, slot_lines(lines, k))
            == Ok::<ArtifactState, ErrorView>(ArtifactState::Done(arts[k as int]))
}

proof fn lemma_build_prefix(
    count: Seq<char>,
    lines: Seq<Seq<Seq<char>>>,
    arts: Seq<crate::event::ArtifactView>,
    m: int,
)
    requires
        complete_build_lines(count, lines, arts),
        0 <= m <= lines.len(),
    ensures
        ({
            let r = build_run(BuildState::Root, build_record(count, lines.subrange(0, m)));
            &&& r is Ok
            &&& r->Ok_0.1.len() == m + 1
            &&& forall|i: int, j: int|
                0 <= i < r->Ok_0.1.len() && (i < m || m < lines.len()) && 0 <= j < r->Ok_0.1[i].len()
                    ==> !(#[trigger] r->Ok_0.1[i][j] is Done)
            &&& m < lines.len() ==> {
                &&& r->Ok_0.0 is ListingArtifacts
                &&& crate::build_log::build_wf(r->Ok_0.0)
                &&& r->Ok_0.0->ListingArtifacts_artifacts.len() == arts.len()
                &&& forall|k: nat|
                    k < arts.len() ==> #[trigger] artifact_run(
                        ArtifactState::Root,
                        slot_lines(lines.subrange(0, m), k),
                    ) == Ok::<ArtifactState, ErrorView>(
                        r->Ok_0.0->ListingArtifacts_artifacts[k as int],
                    )
            }
            &&& m == lines.len() ==> {
                &&& r->Ok_0.0 == BuildState::Done(crate::event::BuildView { artifacts: arts })
                &&& r->Ok_0.1.last().last() == BuildOutput::Done(
                    crate::event::BuildView { artifacts: arts },
                )
            }
        }),
    decreases m,
{
    let n = arts.len();
    let full = build_record(count, lines.subrange(0, m));
    if m == 0 {
        assert(lines.subrange(0, 0) =~= Seq::<Seq<Seq<char>>>::empty());
        assert(full.drop_last() =~= Seq::<Seq<Seq<char>>>::empty());
        let hdr = full.last();
        assert(hdr == seq![tag_text(Tag::ArtifactCount), count]);
        assert(build_run(BuildState::Root, full.drop_last()) == Ok::<
            (BuildState, Seq<Seq<BuildOutput>>),
            ErrorView,
        >((BuildState::Root, Seq::empty())));
        lemma_build_completion(BuildState::Root, hdr);
        let s0 = build_step(BuildState::Root, hdr)->Ok_0.0;
        assert forall|k: nat| k < n implies #[trigger] artifact_run(
            ArtifactState::Root,
            slot_lines(lines.subrange(0, m), k),
        ) == Ok::<ArtifactState, ErrorView>(s0->ListingArtifacts_artifacts[k as int]) by {
            assert(slot_lines(lines.subrange(0, m), k) =~= Seq::<Seq<Seq<char>>>::empty());
        }
    } else {
        lemma_build_prefix(count, lines, arts, m - 1);
        let prevp = lines.subrange(0, m - 1);
        let curp = lines.subrange(0, m);
        assert(curp.drop_last() =~= prevp);
        let l = lines[m - 1];
        assert(curp.last() == l);
        assert(full.drop_last() =~= build_record(count, prevp));
        assert(full.last() == l);
        let rp = build_run(BuildState::Root, build_record(count, prevp))->Ok_0;
        let st = rp.0;
        let slots = st->ListingArtifacts_artifacts;
        assert(l.len() >= 2 && l[0] == tag_text(Tag::Artifact) && slot_of(l) is Some);
        let k0 = slot_of(l)->Some_0;
        assert(k0 < n);
        let t = l.skip(2);
        assert(l.skip(2) =~= t);
        // the addressed slot takes the line
        assert(slot_lines(curp, k0) == slot_lines(prevp, k0).push(t));
        assert(slot_lines(curp, k0).drop_last() =~= slot_lines(prevp, k0));
        lemma_slot_lines_prefix(lines, m, k0);
        lemma_run_prefix(
            ArtifactState::Root,
            slot_lines(lines, k0),
            slot_lines(curp, k0).len() as int,
        );
        assert(artifact_run(ArtifactState::Root, slot_lines(prevp, k0)) == Ok::<
            ArtifactState,
            ErrorView,
        >(slots[k0 as int]));
        let a2 = artifact_step(slots[k0 as int], t)->Ok_0;
        assert(artifact_run(ArtifactState::Root, slot_lines(curp, k0)) == artifact_step(
            slots[k0 as int],
            t,
        ));
        assert(build_step(st, l) is Ok);
        lemma_build_completion(st, l);
        let q = build_step(st, l)->Ok_0;
        let newslots = slots.update(k0 as int, a2);
        assert forall|k: nat| k < n implies #[trigger] artifact_run(
            ArtifactState::Root,
            slot_lines(curp, k),
        ) == Ok::<ArtifactState, ErrorView>(newslots[k as int]) by {
            if k != k0 {
                assert(slot_lines(curp, k) == slot_lines(prevp, k));
            }
        }
        if m < lines.len() {
            let kl = slot_of(lines.last())->Some_0;
            assert(lines.last() == lines[lines.len() - 1]);
            assert(kl < n);
            lemma_slot_lines_prefix(lines, m, kl);
            lemma_run_prefix(
                ArtifactState::Root,
                slot_lines(lines, kl),
                slot_lines(curp, kl).len() as int,
            );
            assert(artifact_run(ArtifactState::Root, slot_lines(curp, kl)) == Ok::<
                ArtifactState,
                ErrorView,
            >(newslots[kl as int]));
            assert(!(newslots[kl as int] is Done));
            if q.0 is Done {
                assert(a2 is Done);
                assert(newslots == slots.update(
                    k0 as int,
                    ArtifactState::Done(q.1[0]->Artifact_0),
                ));
            }
        } else {
            assert(curp =~= lines);
            assert forall|i: int| 0 <= i < newslots.len() implies (#[trigger] newslots[i]) is Done by {
                assert(artifact_run(ArtifactState::Root, slot_lines(curp, i as nat)) == Ok::<
                    ArtifactState,
                    ErrorView,
                >(newslots[i]));
            }
            lemma_pending_all_done(newslots);
            crate::build_log::lemma_pending_update(slots, k0 as int, a2);
            assert(crate::build_log::done_artifacts(newslots) =~= arts) by {
                assert forall|i: int| 0 <= i < n implies crate::build_log::done_artifacts(
                    newslots,
                )[i] == arts[i] by {
                    assert(artifact_run(ArtifactState::Root, slot_lines(curp, i as nat)) == Ok::<
                        ArtifactState,
                        ErrorView,
                    >(newslots[i]));
                }
            }
        }
    }
}


/// Feeding a build's complete record, with the lines of its artifacts interleaved in
/// any order across slots, completes the build exactly once: on the last line, which
/// reports the build holding every artifact in slot order; no earlier line reports a
/// build.
pub proof fn lemma_build_record_completes(
    count: Seq<char>,
    lines: Seq<Seq<Seq<char>>>,
    arts: Seq<crate::event::ArtifactView>,
)
    requires
        complete_build_lines(count, lines, arts),
    ensures
        ({
            let r = build_run(BuildState::Root, build_record(count, lines));
            &&& r is Ok
            &&& r->Ok_0.0 == BuildState::Done(crate::event::BuildView { artifacts: arts })
            &&& r->Ok_0.1.last().last() == BuildOutput::Done(
                crate::event::BuildView { artifacts: arts },
            )
            &&& forall|i: int, j: int|
                0 <= i < r->Ok_0.1.len() - 1 && 0 <= j < r->Ok_0.1[i].len() ==> !(
                #[trigger] r->Ok_0.1[i][j] is Done)
        }),
{
    lemma_build_prefix(count, lines, arts, lines.len() as int);
    assert(lines.subrange(0, lines.len() as int) =~= lines);
}

} // verus!
