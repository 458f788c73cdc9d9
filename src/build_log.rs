use vstd::prelude::*;
use crate::Decoding;
use crate::artifact::{artifact_step, ArtifactState, PartialArtifactLog};
use crate::error::{Error, ErrorView, Stage, Tag};
use crate::event::{strings_view, Artifact, ArtifactView, Build, BuildView};
use crate::token::{expect_message, parse_number, parse_usize, tag_text};

verus! {

/// The decoder of one named build.
#[derive(Debug)]
pub enum PartialBuildLog {
    Root,
    ListingArtifacts { count: usize, artifacts: Vec<PartialArtifactLog> },
    Done(Build),
}

pub ghost enum BuildState {
    Root,
    ListingArtifacts { count: nat, artifacts: Seq<ArtifactState> },
    Done(BuildView),
}

/// What a build decoder reports upward while it takes a line.
#[derive(Debug)]
pub enum BuildLogEventKind {
    Artifact(Artifact),
    Done(Build),
}

pub ghost enum BuildOutput {
    Artifact(ArtifactView),
    Done(BuildView),
}

pub open spec fn slot_states(v: Seq<PartialArtifactLog>) -> Seq<ArtifactState> {
    v.map_values(|a: PartialArtifactLog| a@)
}

impl View for PartialBuildLog {
    type V = BuildState;

    open spec fn view(&self) -> BuildState {
        match self {
            PartialBuildLog::Root => BuildState::Root,
            PartialBuildLog::ListingArtifacts { count, artifacts } => BuildState::ListingArtifacts {
                count: *count as nat,
                artifacts: slot_states(artifacts@),
            },
            PartialBuildLog::Done(b) => BuildState::Done(b@),
        }
    }
}

impl View for BuildLogEventKind {
    type V = BuildOutput;

    open spec fn view(&self) -> BuildOutput {
        match self {
            BuildLogEventKind::Artifact(a) => BuildOutput::Artifact(a@),
            BuildLogEventKind::Done(b) => BuildOutput::Done(b@),
        }
    }
}

pub open spec fn outputs_view(v: Seq<BuildLogEventKind>) -> Seq<BuildOutput> {
    v.map_values(|o: BuildLogEventKind| o@)
}

/// The number of artifact slots that are not yet complete.
pub open spec fn pending(slots: Seq<ArtifactState>) -> nat
    decreases slots.len(),
{
    if slots.len() == 0 {
        0
    } else {
        pending(slots.drop_last()) + if slots.last() is Done {
            0nat
        } else {
            1nat
        }
    }
}

/// The remaining count of a listing build is the number of its incomplete slots.
pub open spec fn build_wf(s: BuildState) -> bool {
    match s {
        BuildState::ListingArtifacts { count, artifacts } => count == pending(artifacts),
        _ => true,
    }
}

pub open spec fn done_artifacts(slots: Seq<ArtifactState>) -> Seq<ArtifactView> {
    slots.map_values(|a: ArtifactState| a->Done_0)
}

/// One line of a build's records, given as its tokens, applied to a state: the next
/// state and what is reported, in order.
pub open spec fn build_step(s: BuildState, toks: Seq<Seq<char>>) -> Result<
    (BuildState, Seq<BuildOutput>),
    ErrorView,
> {
    match s {
        BuildState::Done(_) => Err(ErrorView::AlreadyFinished { stage: Stage::Build }),
        BuildState::Root => if toks.len() == 0 {
            Err(ErrorView::MissingToken { stage: Stage::Build })
        } else if toks[0] != tag_text(Tag::ArtifactCount) {
            Err(
                ErrorView::UnexpectedToken {
                    stage: Stage::Build,
                    expected: Tag::ArtifactCount,
                    actual: toks[0],
                },
            )
        } else if toks.len() < 2 {
            Err(ErrorView::MissingToken { stage: Stage::Build })
        } else {
            match parse_number(toks[1]) {
                None => Err(ErrorView::InvalidNumber { actual: toks[1] }),
                Some(n) => Ok(
                    (
                        BuildState::ListingArtifacts {
                            count: n,
                            artifacts: Seq::new(n, |i: int| ArtifactState::Root),
                        },
                        Seq::empty(),
                    ),
                ),
            }
        },
        BuildState::ListingArtifacts { count, artifacts } => if toks.len() == 0 {
            Err(ErrorView::MissingToken { stage: Stage::Build })
        } else if toks[0] != tag_text(Tag::Artifact) {
            Err(
                ErrorView::UnexpectedToken {
                    stage: Stage::Build,
                    expected: Tag::Artifact,
                    actual: toks[0],
                },
            )
        } else if toks.len() < 2 {
            Err(ErrorView::MissingToken { stage: Stage::Build })
        } else {
            match parse_number(toks[1]) {
                None => Err(ErrorView::InvalidNumber { actual: toks[1] }),
                Some(k) => if k >= artifacts.len() {
                    Err(
                        ErrorView::SlotOutOfRange {
                            stage: Stage::Build,
                            index: k,
                            count: artifacts.len(),
                        },
                    )
                } else {
                    match artifact_step(artifacts[k as int], toks.skip(2)) {
                        Err(e) => Err(e),
                        Ok(a) => {
                            let slots = artifacts.update(k as int, a);
                            match a {
                                ArtifactState::Done(done) => if count == 1 {
                                    let b = BuildView { artifacts: done_artifacts(slots) };
                                    Ok(
                                        (
                                            BuildState::Done(b),
                                            seq![BuildOutput::Artifact(done), BuildOutput::Done(b)],
                                        ),
                                    )
                                } else {
                                    Ok(
                                        (
                                            BuildState::ListingArtifacts {
                                                count: (count - 1) as nat,
                                                artifacts: slots,
                                            },
                                            seq![BuildOutput::Artifact(done)],
                                        ),
                                    )
                                },
                                _ => Ok(
                                    (
                                        BuildState::ListingArtifacts { count, artifacts: slots },
                                        Seq::empty(),
                                    ),
                                ),
                            }
                        },
                    }
                }
            }
        },
    }
}

pub(crate) proof fn lemma_pending_update(slots: Seq<ArtifactState>, i: int, a: ArtifactState)
    requires
        0 <= i < slots.len(),
        !(slots[i] is Done),
    ensures
        pending(slots.update(i, a)) + (if a is Done {
            1nat
        } else {
            0nat
        }) == pending(slots),
    decreases slots.len(),
{
    let u = slots.update(i, a);
    if i == slots.len() - 1 {
        assert(u.drop_last() =~= slots.drop_last());
    } else {
        assert(u.drop_last() =~= slots.drop_last().update(i, a));
        lemma_pending_update(slots.drop_last(), i, a);
    }
}

pub(crate) proof fn lemma_pending_zero(slots: Seq<ArtifactState>)
    requires
        pending(slots) == 0,
    ensures
        forall|i: int| 0 <= i < slots.len() ==> (#[trigger] slots[i]) is Done,
    decreases slots.len(),
{
    if slots.len() > 0 {
        lemma_pending_zero(slots.drop_last());
        assert forall|i: int| 0 <= i < slots.len() implies (#[trigger] slots[i]) is Done by {
            if i < slots.len() - 1 {
                assert(slots[i] == slots.drop_last()[i]);
            }
        }
    }
}

pub(crate) proof fn lemma_pending_all_root(n: nat)
    ensures
        pending(Seq::new(n, |i: int| ArtifactState::Root)) == n,
    decreases n,
{
    if n > 0 {
        let s = Seq::new(n, |i: int| ArtifactState::Root);
        assert(s.drop_last() =~= Seq::new((n - 1) as nat, |i: int| ArtifactState::Root));
        lemma_pending_all_root((n - 1) as nat);
    }
}

/// The artifacts of a slot array whose slots are all complete, in slot order.
fn assemble(slots: &Vec<PartialArtifactLog>) -> (r: Build)
    requires
        forall|i: int| 0 <= i < slots@.len() ==> (#[trigger] slot_states(slots@)[i]) is Done,
    ensures
        r@ == (BuildView { artifacts: done_artifacts(slot_states(slots@)) }),
{
    let mut out: Vec<Artifact> = Vec::new();
    let mut i: usize = 0;
    while i < slots.len()
        invariant
            i <= slots@.len(),
            forall|j: int| 0 <= j < slots@.len() ==> (#[trigger] slot_states(slots@)[j]) is Done,
            out@.len() == i,
            forall|j: int|
                0 <= j < i ==> #[trigger] out@[j]@ == slot_states(slots@)[j]->Done_0,
        decreases slots@.len() - i,
    {
        assert(slot_states(slots@)[i as int] is Done);
        if let Some(a) = slots[i].finished() {
            out.push(a);
        }
        i = i + 1;
    }
    let r = Build { artifacts: out };
    assert(r@.artifacts =~= done_artifacts(slot_states(slots@)));
    r
}

impl PartialBuildLog {
    pub fn new() -> (r: Self)
        ensures
            r@ == BuildState::Root,
    {
        PartialBuildLog::Root
    }

    /// Takes one line of this build's records, the tokens of `tokens` from `pos` on,
    /// and appends what it reports to `out`. On an error nothing changes.
    pub fn try_decode(
        &mut self,
        tokens: &Vec<String>,
        pos: usize,
        out: &mut Vec<BuildLogEventKind>,
    ) -> (r: Result<Decoding, Error>)
        requires
            pos <= tokens@.len(),
            build_wf(old(self)@),
        ensures
            build_wf(final(self)@),
            match build_step(old(self)@, strings_view(tokens@).skip(pos as int)) {
                Ok(p) => final(self)@ == p.0 && outputs_view(final(out)@) == outputs_view(
                    old(out)@,
                ) + p.1 && r == Ok::<Decoding, Error>(
                    if p.0 is Done {
                        Decoding::Done
                    } else {
                        Decoding::Partial
                    },
                ),
                Err(e) => final(self)@ == old(self)@ && final(out)@ == old(out)@ && r is Err
                    && r->Err_0@ == e,
            },
    {
        let mut cur = PartialBuildLog::Root;
        std::mem::swap(self, &mut cur);
        let r = Self::step(&mut cur, tokens, pos, out);
        *self = cur;
        r
    }

    fn step(
        s: &mut Self,
        tokens: &Vec<String>,
        pos: usize,
        out: &mut Vec<BuildLogEventKind>,
    ) -> (r: Result<Decoding, Error>)
        requires
            pos <= tokens@.len(),
            build_wf(old(s)@),
        ensures
            build_wf(final(s)@),
            match build_step(old(s)@, strings_view(tokens@).skip(pos as int)) {
                Ok(p) => final(s)@ == p.0 && outputs_view(final(out)@) == outputs_view(old(out)@)
                    + p.1 && r == Ok::<Decoding, Error>(
                    if p.0 is Done {
                        Decoding::Done
                    } else {
                        Decoding::Partial
                    },
                ),
                Err(e) => final(s)@ == old(s)@ && final(out)@ == old(out)@ && r is Err
                    && r->Err_0@ == e,
            },
    {
        let ghost toks = strings_view(tokens@).skip(pos as int);
        if let PartialBuildLog::Done(_) = s {
            return Err(Error::AlreadyFinished { stage: Stage::Build });
        }
        if pos >= tokens.len() {
            return Err(Error::MissingToken { stage: Stage::Build });
        }
        assert(toks[0] == tokens@[pos as int]@);
        let listing = match s {
            PartialBuildLog::Root => false,
            _ => true,
        };
        let expected = if listing {
            Tag::Artifact
        } else {
            Tag::ArtifactCount
        };
        if let Err(e) = expect_message(Stage::Build, expected, &tokens[pos]) {
            return Err(e);
        }
        if tokens.len() - pos < 2 {
            return Err(Error::MissingToken { stage: Stage::Build });
        }
        assert(toks[1] == tokens@[pos + 1]@);
        let n = match parse_usize(tokens[pos + 1].as_str()) {
            Some(n) => n,
            None => {
                return Err(Error::InvalidNumber { actual: tokens[pos + 1].clone() });
            },
        };
        if !listing {
            let mut artifacts: Vec<PartialArtifactLog> = Vec::new();
            let mut i: usize = 0;
            while i < n
                invariant
                    i <= n,
                    artifacts@.len() == i,
                    forall|j: int| 0 <= j < i ==> (#[trigger] artifacts@[j])@ == ArtifactState::Root,
                decreases n - i,
            {
                artifacts.push(PartialArtifactLog::new());
                i = i + 1;
            }
            assert(slot_states(artifacts@) =~= Seq::new(n as nat, |i: int| ArtifactState::Root));
            proof {
                lemma_pending_all_root(n as nat);
            }
            *s = PartialBuildLog::ListingArtifacts { count: n, artifacts };
            return Ok(Decoding::Partial);
        }
        let mut cur = PartialBuildLog::Root;
        std::mem::swap(s, &mut cur);
        let ghost before = cur@;
        let (count, mut artifacts) = match cur {
            PartialBuildLog::ListingArtifacts { count, artifacts } => (count, artifacts),
            other => {
                *s = other;
                return Err(Error::AlreadyFinished { stage: Stage::Build });
            },
        };
        if n >= artifacts.len() {
            let len = artifacts.len();
            *s = PartialBuildLog::ListingArtifacts { count, artifacts };
            return Err(Error::SlotOutOfRange { stage: Stage::Build, index: n, count: len });
        }
        let ghost slots0 = slot_states(artifacts@);
        assert(toks.skip(2) =~= strings_view(tokens@).skip(pos + 2));
        let decoded = artifacts[n].try_decode(tokens, pos + 2);
        let ghost slots1 = slot_states(artifacts@);
        assert(slots1 =~= slots0.update(n as int, artifacts@[n as int]@));
        match decoded {
            Err(e) => {
                assert(slots1 =~= slots0);
                *s = PartialBuildLog::ListingArtifacts { count, artifacts };
                return Err(e);
            },
            Ok(Decoding::Partial) => {
                proof {
                    lemma_pending_update(slots0, n as int, slots1[n as int]);
                }
                *s = PartialBuildLog::ListingArtifacts { count, artifacts };
                return Ok(Decoding::Partial);
            },
            Ok(Decoding::Done) => {},
        }
        proof {
            lemma_pending_update(slots0, n as int, slots1[n as int]);
        }
        let done = match artifacts[n].finished() {
            Some(a) => a,
            None => {
                *s = PartialBuildLog::ListingArtifacts { count, artifacts };
                return Err(Error::AlreadyFinished { stage: Stage::Artifact });
            },
        };
        out.push(BuildLogEventKind::Artifact(done));
        if count == 1 {
            proof {
                lemma_pending_zero(slots1);
            }
            let build = assemble(&artifacts);
            out.push(BuildLogEventKind::Done(build.duplicate()));
            *s = PartialBuildLog::Done(build);
            assert(outputs_view(out@) =~= outputs_view(old(out)@) + build_step(
                before,
                toks,
            )->Ok_0.1);
            Ok(Decoding::Done)
        } else {
            *s = PartialBuildLog::ListingArtifacts { count: count - 1, artifacts };
            assert(outputs_view(out@) =~= outputs_view(old(out)@) + build_step(
                before,
                toks,
            )->Ok_0.1);
            Ok(Decoding::Partial)
        }
    }
}

} // verus!
