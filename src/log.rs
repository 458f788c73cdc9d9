use vstd::prelude::*;
use crate::Decoding;
use crate::build_log::{
    build_step, build_wf, outputs_view, BuildLogEventKind, BuildOutput, BuildState,
    PartialBuildLog,
};
use crate::error::{Error, ErrorView, Stage};
use crate::event::{events_view, strings_view, Event, EventKind, EventKindView, EventView, UIView, UI};
use crate::token::str_equal;

verus! {

/// The decoder of one named build, as held by the log.
#[derive(Debug)]
pub struct BuildEntry {
    pub name: String,
    pub log: PartialBuildLog,
}

/// The stream-level decoder: one build decoder for each build name seen so far.
///
/// The decoders are kept in a list of named entries, no two with the same name
/// (see `log_wf`), rather than in a `HashMap<String, _>`: vstd's specification of
/// std's hash maps holds only for key types that satisfy its key model
/// (`obeys_key_model`), which it establishes for integers and `bool` but not for
/// `String`, so nothing could be proved about such a map's contents.
#[derive(Debug)]
pub struct EventLog {
    builds: Vec<BuildEntry>,
}

pub open spec fn entries_view(v: Seq<BuildEntry>) -> Seq<(Seq<char>, BuildState)> {
    v.map_values(|e: BuildEntry| (e.name@, e.log@))
}

impl View for EventLog {
    type V = Seq<(Seq<char>, BuildState)>;

    closed spec fn view(&self) -> Seq<(Seq<char>, BuildState)> {
        entries_view(self.builds@)
    }
}

/// The position of the entry for `name`, the last such one, or -1.
pub open spec fn find_build(entries: Seq<(Seq<char>, BuildState)>, name: Seq<char>) -> int
    decreases entries.len(),
{
    if entries.len() == 0 {
        -1
    } else if entries.last().0 == name {
        entries.len() - 1
    } else {
        find_build(entries.drop_last(), name)
    }
}

pub(crate) proof fn lemma_find_build(entries: Seq<(Seq<char>, BuildState)>, name: Seq<char>)
    ensures
        -1 <= find_build(entries, name) < entries.len(),
        find_build(entries, name) >= 0 ==> entries[find_build(entries, name)].0 == name,
        find_build(entries, name) == -1 ==> forall|i: int|
            0 <= i < entries.len() ==> (#[trigger] entries[i]).0 != name,
    decreases entries.len(),
{
    if entries.len() > 0 {
        lemma_find_build(entries.drop_last(), name);
        if find_build(entries, name) == -1 {
            assert forall|i: int| 0 <= i < entries.len() implies (#[trigger] entries[i]).0
                != name by {
                if i < entries.len() - 1 {
                    assert(entries[i] == entries.drop_last()[i]);
                }
            }
        }
    }
}

/// The state of the decoder for `name`; a build not seen yet is at its start.
pub open spec fn lookup(entries: Seq<(Seq<char>, BuildState)>, name: Seq<char>) -> BuildState {
    let i = find_build(entries, name);
    if i >= 0 {
        entries[i].1
    } else {
        BuildState::Root
    }
}

/// The entries with the decoder for `name` set to `b`.
pub open spec fn with_build(
    entries: Seq<(Seq<char>, BuildState)>,
    name: Seq<char>,
    b: BuildState,
) -> Seq<(Seq<char>, BuildState)> {
    let i = find_build(entries, name);
    if i >= 0 {
        entries.update(i, (name, b))
    } else {
        entries.push((name, b))
    }
}

/// Every build decoder is well formed, and no two entries share a build name.
pub open spec fn log_wf(entries: Seq<(Seq<char>, BuildState)>) -> bool {
    &&& forall|i: int| 0 <= i < entries.len() ==> build_wf(#[trigger] entries[i].1)
    &&& forall|i: int, j: int|
        0 <= i < j < entries.len() ==> (#[trigger] entries[i]).0 != (#[trigger] entries[j]).0
}

/// A global `ui` notice of the given sub-type, if the sub-type is one of the three.
pub open spec fn ui_of(sub: Seq<char>, text: Seq<char>) -> Option<UIView> {
    if sub == "say"@ {
        Some(UIView::Say(text))
    } else if sub == "message"@ {
        Some(UIView::Message(text))
    } else if sub == "error"@ {
        Some(UIView::Error(text))
    } else {
        None
    }
}

/// A report of a build decoder, stamped with the line's timestamp and build name.
pub open spec fn stamp(ts: Seq<char>, name: Seq<char>, o: BuildOutput) -> EventView {
    match o {
        BuildOutput::Artifact(a) => EventView {
            timestamp: ts,
            kind: EventKindView::Artifact { build_name: name, artifact: a },
        },
        BuildOutput::Done(b) => EventView {
            timestamp: ts,
            kind: EventKindView::Build { build_name: name, build: b },
        },
    }
}

pub open spec fn stamp_all(ts: Seq<char>, name: Seq<char>, outs: Seq<BuildOutput>) -> Seq<EventView> {
    outs.map_values(|o: BuildOutput| stamp(ts, name, o))
}

/// One line of the stream, given as its tokens, applied to the log: the next entries
/// and the events delivered, in order.
pub open spec fn log_step(entries: Seq<(Seq<char>, BuildState)>, toks: Seq<Seq<char>>) -> Result<
    (Seq<(Seq<char>, BuildState)>, Seq<EventView>),
    ErrorView,
> {
    if toks.len() < 2 {
        Err(ErrorView::MissingToken { stage: Stage::Log })
    } else if toks[1].len() == 0 {
        if toks.len() < 3 {
            Err(ErrorView::MissingToken { stage: Stage::Log })
        } else if toks[2] != "ui"@ {
            Err(ErrorView::UnknownMessageType { actual: toks[2] })
        } else if toks.len() < 4 {
            Err(ErrorView::MissingToken { stage: Stage::Log })
        } else if ui_of(toks[3], Seq::empty()) is None {
            Err(ErrorView::UnknownUiType { actual: toks[3] })
        } else if toks.len() < 5 {
            Err(ErrorView::MissingToken { stage: Stage::Log })
        } else {
            Ok(
                (
                    entries,
                    seq![
                        EventView {
                            timestamp: toks[0],
                            kind: EventKindView::UI(ui_of(toks[3], toks[4])->Some_0),
                        },
                    ],
                ),
            )
        }
    } else {
        match build_step(lookup(entries, toks[1]), toks.skip(2)) {
            Err(e) => Err(e),
            Ok(p) => Ok(
                (with_build(entries, toks[1], p.0), stamp_all(toks[0], toks[1], p.1)),
            ),
        }
    }
}

impl EventLog {
    pub open spec fn wf(&self) -> bool {
        log_wf(self@)
    }

    pub fn new() -> (r: Self)
        ensures
            r@ == Seq::<(Seq<char>, BuildState)>::empty(),
            r.wf(),
    {
        let r = EventLog { builds: Vec::new() };
        assert(r@ =~= Seq::<(Seq<char>, BuildState)>::empty());
        r
    }

    /// The position of the decoder for `name`, searching from the most recent entry.
    fn position(&self, name: &String) -> (r: Option<usize>)
        ensures
            match r {
                Some(i) => find_build(self@, name@) == i as int && i < self@.len(),
                None => find_build(self@, name@) == -1,
            },
    {
        let mut i: usize = self.builds.len();
        assert(self@.subrange(0, i as int) =~= self@);
        while i > 0
            invariant
                i <= self@.len(),
                find_build(self@, name@) == find_build(self@.subrange(0, i as int), name@),
            decreases i,
        {
            let ghost sub = self@.subrange(0, i as int);
            assert(sub.last() == self@[i - 1]);
            assert(sub.drop_last() =~= self@.subrange(0, i - 1));
            if str_equal(self.builds[i - 1].name.as_str(), name.as_str()) {
                return Some(i - 1);
            }
            i = i - 1;
        }
        None
    }

    /// Takes one line of the stream, split into its comma-separated tokens, and appends
    /// the events it completes to `events`. On an error nothing changes.
    pub fn try_decode(&mut self, tokens: &Vec<String>, events: &mut Vec<Event>) -> (r: Result<
        Decoding,
        Error,
    >)
        requires
            old(self).wf(),
        ensures
            final(self).wf(),
            match log_step(old(self)@, strings_view(tokens@)) {
                Ok(p) => final(self)@ == p.0 && events_view(final(events)@) == events_view(
                    old(events)@,
                ) + p.1 && r == Ok::<Decoding, Error>(Decoding::Partial),
                Err(e) => final(self)@ == old(self)@ && final(events)@ == old(events)@ && r is Err
                    && r->Err_0@ == e,
            },
    {
        let ghost toks = strings_view(tokens@);
        if tokens.len() < 2 {
            return Err(Error::MissingToken { stage: Stage::Log });
        }
        let timestamp = &tokens[0];
        let name = &tokens[1];
        assert(toks[0] == timestamp@ && toks[1] == name@);
        if name.as_str().unicode_len() == 0 {
            if tokens.len() < 3 {
                return Err(Error::MissingToken { stage: Stage::Log });
            }
            assert(toks[2] == tokens@[2]@);
            if !str_equal(tokens[2].as_str(), "ui") {
                return Err(Error::UnknownMessageType { actual: tokens[2].clone() });
            }
            if tokens.len() < 4 {
                return Err(Error::MissingToken { stage: Stage::Log });
            }
            assert(toks[3] == tokens@[3]@);
            let sub = tokens[3].as_str();
            let which: u8 = if str_equal(sub, "say") {
                0
            } else if str_equal(sub, "message") {
                1
            } else if str_equal(sub, "error") {
                2
            } else {
                return Err(Error::UnknownUiType { actual: tokens[3].clone() });
            };
            if tokens.len() < 5 {
                return Err(Error::MissingToken { stage: Stage::Log });
            }
            assert(toks[4] == tokens@[4]@);
            let text = tokens[4].clone();
            let ui = if which == 0 {
                UI::Say(text)
            } else if which == 1 {
                UI::Message(text)
            } else {
                UI::Error(text)
            };
            events.push(Event { timestamp: timestamp.clone(), kind: EventKind::UI(ui) });
            assert(events_view(events@) =~= events_view(old(events)@) + log_step(
                old(self)@,
                toks,
            )->Ok_0.1);
            return Ok(Decoding::Partial);
        }
        assert(toks.skip(2) =~= strings_view(tokens@).skip(2));
        let mut out: Vec<BuildLogEventKind> = Vec::new();
        let found = self.position(name);
        let decoded = match found {
            Some(i) => {
                let mut entry = BuildEntry { name: String::new(), log: PartialBuildLog::new() };
                std::mem::swap(&mut self.builds[i], &mut entry);
                let ghost removed = self.builds@;
                assert(build_wf(entries_view(old(self).builds@)[i as int].1));
                let decoded = entry.log.try_decode(tokens, 2, &mut out);
                self.builds[i] = entry;
                proof {
                    lemma_find_build(old(self)@, name@);
                }
                if decoded.is_ok() {
                    assert(entries_view(self.builds@) =~= with_build(old(self)@, name@, entry.log@));
                } else {
                    assert(entries_view(self.builds@) =~= old(self)@);
                }
                decoded
            },
            None => {
                let mut log = PartialBuildLog::new();
                let decoded = log.try_decode(tokens, 2, &mut out);
                if decoded.is_ok() {
                    proof {
                        lemma_find_build(old(self)@, name@);
                    }
                    self.builds.push(BuildEntry { name: name.clone(), log });
                    assert(entries_view(self.builds@) =~= with_build(old(self)@, name@, log@));
                }
                decoded
            },
        };
        match decoded {
            Err(e) => {
                return Err(e);
            },
            Ok(_) => {},
        }
        let mut k: usize = 0;
        while k < out.len()
            invariant
                k <= out@.len(),
                events_view(events@) == events_view(old(events)@) + stamp_all(
                    timestamp@,
                    name@,
                    outputs_view(out@).subrange(0, k as int),
                ),
            decreases out@.len() - k,
        {
            let kind = match &out[k] {
                BuildLogEventKind::Artifact(a) => EventKind::Artifact {
                    build_name: name.clone(),
                    artifact: a.duplicate(),
                },
                BuildLogEventKind::Done(b) => EventKind::Build {
                    build_name: name.clone(),
                    build: b.duplicate(),
                },
            };
            let ev = Event { timestamp: timestamp.clone(), kind };
            let ghost prefix = outputs_view(out@).subrange(0, k as int);
            let ghost o = outputs_view(out@)[k as int];
            assert(ev@ == stamp(timestamp@, name@, o));
            let ghost ev_before = events@;
            events.push(ev);
            assert(events_view(events@) =~= events_view(ev_before).push(ev@));
            assert(outputs_view(out@).subrange(0, k + 1) =~= prefix.push(o));
            assert(stamp_all(timestamp@, name@, prefix.push(o)) =~= stamp_all(
                timestamp@,
                name@,
                prefix,
            ).push(stamp(timestamp@, name@, o)));
            k = k + 1;
            assert(events_view(events@) =~= events_view(old(events)@) + stamp_all(
                timestamp@,
                name@,
                outputs_view(out@).subrange(0, k as int),
            ));
        }
        assert(outputs_view(out@).subrange(0, k as int) =~= outputs_view(out@));
        Ok(Decoding::Partial)
    }
}

impl Default for EventLog {
    fn default() -> (r: Self)
        ensures
            r@ == Seq::<(Seq<char>, BuildState)>::empty(),
            r.wf(),
    {
        EventLog::new()
    }
}

} // verus!
