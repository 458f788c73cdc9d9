use vstd::prelude::*;
use crate::Decoding;
use crate::error::{Error, ErrorView, Stage, Tag};
use crate::event::{opt_str_view, strings_view, Artifact, ArtifactView};
use crate::token::{expect_message, parse_number, parse_usize, tag_text};

verus! {

/// The decoder of one artifact: how much of its record has been seen so far.
#[derive(Debug)]
pub enum PartialArtifactLog {
    Root,
    BuilderId { builder_id: String },
    Id { builder_id: String, id: Option<String> },
    Str { builder_id: String, id: Option<String>, string: String },
    ListingFiles {
        builder_id: String,
        id: Option<String>,
        string: String,
        count: usize,
        files: Vec<Option<String>>,
    },
    Done(Artifact),
}

pub ghost enum ArtifactState {
    Root,
    BuilderId { builder_id: Seq<char> },
    Id { builder_id: Seq<char>, id: Option<Seq<char>> },
    Str { builder_id: Seq<char>, id: Option<Seq<char>>, string: Seq<char> },
    ListingFiles {
        builder_id: Seq<char>,
        id: Option<Seq<char>>,
        string: Seq<char>,
        count: nat,
        files: Seq<Option<Seq<char>>>,
    },
    Done(ArtifactView),
}

pub open spec fn slots_view(v: Seq<Option<String>>) -> Seq<Option<Seq<char>>> {
    v.map_values(|o: Option<String>| opt_str_view(o))
}

impl View for PartialArtifactLog {
    type V = ArtifactState;

    open spec fn view(&self) -> ArtifactState {
        match self {
            PartialArtifactLog::Root => ArtifactState::Root,
            PartialArtifactLog::BuilderId { builder_id } => ArtifactState::BuilderId {
                builder_id: builder_id@,
            },
            PartialArtifactLog::Id { builder_id, id } => ArtifactState::Id {
                builder_id: builder_id@,
                id: opt_str_view(*id),
            },
            PartialArtifactLog::Str { builder_id, id, string } => ArtifactState::Str {
                builder_id: builder_id@,
                id: opt_str_view(*id),
                string: string@,
            },
            PartialArtifactLog::ListingFiles { builder_id, id, string, count, files } =>
                ArtifactState::ListingFiles {
                builder_id: builder_id@,
                id: opt_str_view(*id),
                string: string@,
                count: *count as nat,
                files: slots_view(files@),
            },
            PartialArtifactLog::Done(a) => ArtifactState::Done(a@),
        }
    }
}

/// The tag that the next line of an artifact must carry in each state.
pub open spec fn expected_artifact_tag(s: ArtifactState) -> Tag {
    match s {
        ArtifactState::Root => Tag::BuilderId,
        ArtifactState::BuilderId { .. } => Tag::Id,
        ArtifactState::Id { .. } => Tag::Str,
        ArtifactState::Str { .. } => Tag::FilesCount,
        ArtifactState::ListingFiles { count, .. } => if count == 0 {
            Tag::End
        } else {
            Tag::File
        },
        ArtifactState::Done(_) => Tag::End,
    }
}

pub open spec fn all_filled(files: Seq<Option<Seq<char>>>) -> bool {
    forall|i: int| 0 <= i < files.len() ==> (#[trigger] files[i]) is Some
}

pub open spec fn filled_names(files: Seq<Option<Seq<char>>>) -> Seq<Seq<char>> {
    files.map_values(|o: Option<Seq<char>>| o->Some_0)
}

/// The id token of an artifact: the empty token stands for no id.
pub open spec fn id_of(t: Seq<char>) -> Option<Seq<char>> {
    if t.len() == 0 {
        None
    } else {
        Some(t)
    }
}

/// One line of an artifact's record, given as its tokens, applied to a state.
pub open spec fn artifact_step(s: ArtifactState, toks: Seq<Seq<char>>) -> Result<
    ArtifactState,
    ErrorView,
> {
    if s is Done {
        Err(ErrorView::AlreadyFinished { stage: Stage::Artifact })
    } else if toks.len() == 0 {
        Err(ErrorView::MissingToken { stage: Stage::Artifact })
    } else if toks[0] != tag_text(expected_artifact_tag(s)) {
        Err(
            ErrorView::UnexpectedToken {
                stage: Stage::Artifact,
                expected: expected_artifact_tag(s),
                actual: toks[0],
            },
        )
    } else {
        match s {
            ArtifactState::ListingFiles { builder_id, id, string, count, files } => {
                if count == 0 {
                    if all_filled(files) {
                        Ok(
                            ArtifactState::Done(
                                ArtifactView { builder_id, id, files: filled_names(files) },
                            ),
                        )
                    } else {
                        Err(ErrorView::IncompleteArtifact)
                    }
                } else if toks.len() < 3 {
                    Err(ErrorView::MissingToken { stage: Stage::Artifact })
                } else {
                    match parse_number(toks[1]) {
                        None => Err(ErrorView::InvalidNumber { actual: toks[1] }),
                        Some(k) => if k >= files.len() {
                            Err(
                                ErrorView::SlotOutOfRange {
                                    stage: Stage::Artifact,
                                    index: k,
                                    count: files.len(),
                                },
                            )
                        } else {
                            Ok(
                                ArtifactState::ListingFiles {
                                    builder_id,
                                    id,
                                    string,
                                    count: (count - 1) as nat,
                                    files: files.update(k as int, Some(toks[2])),
                                },
                            )
                        },
                    }
                }
            },
            _ => if toks.len() < 2 {
                Err(ErrorView::MissingToken { stage: Stage::Artifact })
            } else {
                match s {
                    ArtifactState::Root => Ok(ArtifactState::BuilderId { builder_id: toks[1] }),
                    ArtifactState::BuilderId { builder_id } => Ok(
                        ArtifactState::Id { builder_id, id: id_of(toks[1]) },
                    ),
                    ArtifactState::Id { builder_id, id } => Ok(
                        ArtifactState::Str { builder_id, id, string: toks[1] },
                    ),
                    ArtifactState::Str { builder_id, id, string } => match parse_number(toks[1]) {
                        None => Err(ErrorView::InvalidNumber { actual: toks[1] }),
                        Some(n) => Ok(
                            ArtifactState::ListingFiles {
                                builder_id,
                                id,
                                string,
                                count: n,
                                files: Seq::new(n, |i: int| None),
                            },
                        ),
                    },
                    _ => Err(ErrorView::AlreadyFinished { stage: Stage::Artifact }),
                }
            },
        }
    }
}

/// The file names of a full slot array, in slot order; `None` where a slot is empty.
fn filled_files(files: &Vec<Option<String>>) -> (r: Option<Vec<String>>)
    ensures
        match r {
            Some(names) => all_filled(slots_view(files@)) && strings_view(names@) == filled_names(
                slots_view(files@),
            ),
            None => !all_filled(slots_view(files@)),
        },
{
    let mut names: Vec<String> = Vec::new();
    let mut i: usize = 0;
    while i < files.len()
        invariant
            i <= files@.len(),
            names@.len() == i,
            forall|j: int|
                0 <= j < i ==> (#[trigger] slots_view(files@)[j]) is Some && names@[j]@
                    == slots_view(files@)[j]->Some_0,
        decreases files@.len() - i,
    {
        match &files[i] {
            Some(name) => names.push(name.clone()),
            None => {
                assert(slots_view(files@)[i as int] is None);
                return None;
            },
        }
        i = i + 1;
    }
    assert(strings_view(names@) =~= filled_names(slots_view(files@)));
    Some(names)
}

pub open spec fn decoding_of_artifact(s: ArtifactState) -> Decoding {
    if s is Done {
        Decoding::Done
    } else {
        Decoding::Partial
    }
}

impl Default for PartialArtifactLog {
    fn default() -> (r: Self)
        ensures
            r@ == ArtifactState::Root,
    {
        PartialArtifactLog::Root
    }
}

impl PartialArtifactLog {
    pub fn new() -> (r: Self)
        ensures
            r@ == ArtifactState::Root,
    {
        PartialArtifactLog::Root
    }

    /// A copy of the completed artifact; `None` while the record is incomplete.
    pub fn finished(&self) -> (r: Option<Artifact>)
        ensures
            r is Some <==> self@ is Done,
            r is Some ==> self@ == ArtifactState::Done(r->Some_0@),
    {
        match self {
            PartialArtifactLog::Done(a) => Some(a.duplicate()),
            _ => None,
        }
    }

    /// Takes one line of this artifact's record, the tokens of `tokens` from `pos` on.
    /// On an error the decoder is left as it was.
    pub fn try_decode(&mut self, tokens: &Vec<String>, pos: usize) -> (r: Result<Decoding, Error>)
        requires
            pos <= tokens@.len(),
        ensures
            match artifact_step(old(self)@, strings_view(tokens@).skip(pos as int)) {
                Ok(s) => final(self)@ == s && r == Ok::<Decoding, Error>(decoding_of_artifact(s)),
                Err(e) => final(self)@ == old(self)@ && r is Err && r->Err_0@ == e,
            },
    {
        let mut cur = PartialArtifactLog::Root;
        std::mem::swap(self, &mut cur);
        let (next, r) = Self::step(cur, tokens, pos);
        *self = next;
        r
    }

    fn step(s: Self, tokens: &Vec<String>, pos: usize) -> (res: (Self, Result<Decoding, Error>))
        requires
            pos <= tokens@.len(),
        ensures
            match artifact_step(s@, strings_view(tokens@).skip(pos as int)) {
                Ok(n) => res.0@ == n && res.1 == Ok::<Decoding, Error>(decoding_of_artifact(n)),
                Err(e) => res.0@ == s@ && res.1 is Err && res.1->Err_0@ == e,
            },
    {
        let ghost toks = strings_view(tokens@).skip(pos as int);
        if let PartialArtifactLog::Done(_) = s {
            return (s, Err(Error::AlreadyFinished { stage: Stage::Artifact }));
        }
        if pos >= tokens.len() {
            return (s, Err(Error::MissingToken { stage: Stage::Artifact }));
        }
        let message = &tokens[pos];
        assert(toks[0] == message@);
        let expected = match &s {
            PartialArtifactLog::Root => Tag::BuilderId,
            PartialArtifactLog::BuilderId { .. } => Tag::Id,
            PartialArtifactLog::Id { .. } => Tag::Str,
            PartialArtifactLog::Str { .. } => Tag::FilesCount,
            PartialArtifactLog::ListingFiles { count, .. } => if *count == 0 {
                Tag::End
            } else {
                Tag::File
            },
            PartialArtifactLog::Done(_) => Tag::End,
        };
        if let Err(e) = expect_message(Stage::Artifact, expected, message) {
            return (s, Err(e));
        }
        if let PartialArtifactLog::ListingFiles { builder_id, id, string, count, mut files } = s {
            if count == 0 {
                let names = match filled_files(&files) {
                    Some(names) => names,
                    None => {
                        let back = PartialArtifactLog::ListingFiles {
                            builder_id,
                            id,
                            string,
                            count,
                            files,
                        };
                        return (back, Err(Error::IncompleteArtifact));
                    },
                };
                let artifact = Artifact { builder_id, id, files: names };
                return (PartialArtifactLog::Done(artifact), Ok(Decoding::Done));
            }
            if tokens.len() - pos < 3 {
                let back = PartialArtifactLog::ListingFiles { builder_id, id, string, count, files };
                return (back, Err(Error::MissingToken { stage: Stage::Artifact }));
            }
            assert(toks[1] == tokens@[pos + 1]@ && toks[2] == tokens@[pos + 2]@);
            let index = match parse_usize(tokens[pos + 1].as_str()) {
                Some(k) => k,
                None => {
                    let back = PartialArtifactLog::ListingFiles {
                        builder_id,
                        id,
                        string,
                        count,
                        files,
                    };
                    return (back, Err(Error::InvalidNumber { actual: tokens[pos + 1].clone() }));
                },
            };
            if index >= files.len() {
                let n = files.len();
                let back = PartialArtifactLog::ListingFiles { builder_id, id, string, count, files };
                return (
                    back,
                    Err(Error::SlotOutOfRange { stage: Stage::Artifact, index, count: n }),
                );
            }
            let ghost before = files@;
            files[index] = Some(tokens[pos + 2].clone());
            assert(slots_view(files@) =~= slots_view(before).update(
                index as int,
                Some(toks[2]),
            ));
            let next = PartialArtifactLog::ListingFiles {
                builder_id,
                id,
                string,
                count: count - 1,
                files,
            };
            return (next, Ok(Decoding::Partial));
        }
        if pos + 1 >= tokens.len() {
            return (s, Err(Error::MissingToken { stage: Stage::Artifact }));
        }
        assert(toks[1] == tokens@[pos + 1]@);
        let value = &tokens[pos + 1];
        match s {
            PartialArtifactLog::Root => (
                PartialArtifactLog::BuilderId { builder_id: value.clone() },
                Ok(Decoding::Partial),
            ),
            PartialArtifactLog::BuilderId { builder_id } => {
                let id = if value.as_str().unicode_len() == 0 {
                    None
                } else {
                    Some(value.clone())
                };
                (PartialArtifactLog::Id { builder_id, id }, Ok(Decoding::Partial))
            },
            PartialArtifactLog::Id { builder_id, id } => (
                PartialArtifactLog::Str { builder_id, id, string: value.clone() },
                Ok(Decoding::Partial),
            ),
            PartialArtifactLog::Str { builder_id, id, string } => {
                match parse_usize(value.as_str()) {
                    None => {
                        let back = PartialArtifactLog::Str { builder_id, id, string };
                        (back, Err(Error::InvalidNumber { actual: value.clone() }))
                    },
                    Some(n) => {
                        let mut files: Vec<Option<String>> = Vec::new();
                        let mut i: usize = 0;
                        while i < n
                            invariant
                                i <= n,
                                files@.len() == i,
                                forall|j: int| 0 <= j < i ==> (#[trigger] files@[j]) is None,
                            decreases n - i,
                        {
                            files.push(None);
                            i = i + 1;
                        }
                        assert(slots_view(files@) =~= Seq::new(n as nat, |i: int| None));
                        (
                            PartialArtifactLog::ListingFiles {
                                builder_id,
                                id,
                                string,
                                count: n,
                                files,
                            },
                            Ok(Decoding::Partial),
                        )
                    },
                }
            },
            other => (other, Err(Error::AlreadyFinished { stage: Stage::Artifact })),
        }
    }
}

} // verus!
