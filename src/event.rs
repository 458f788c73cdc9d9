use vstd::prelude::*;

verus! {

/// A global user-interface notice.
#[derive(Debug, Clone)]
pub enum UI {
    Say(String),
    Message(String),
    Error(String),
}

/// One event delivered to the consumer of a decoded log.
#[derive(Debug, Clone)]
pub struct Event {
    pub timestamp: String,
    pub kind: EventKind,
}

#[derive(Debug, Clone)]
pub enum EventKind {
    UI(UI),
    Artifact { build_name: String, artifact: Artifact },
    Build { build_name: String, build: Build },
}

/// One output of a build.
#[derive(Debug, Clone)]
pub struct Artifact {
    pub builder_id: String,
    pub id: Option<String>,
    pub files: Vec<String>,
}

/// The complete output set of one named build.
#[derive(Debug, Clone)]
pub struct Build {
    pub artifacts: Vec<Artifact>,
}

pub ghost enum UIView {
    Say(Seq<char>),
    Message(Seq<char>),
    Error(Seq<char>),
}

pub ghost struct ArtifactView {
    pub builder_id: Seq<char>,
    pub id: Option<Seq<char>>,
    pub files: Seq<Seq<char>>,
}

pub ghost struct BuildView {
    pub artifacts: Seq<ArtifactView>,
}

pub ghost enum EventKindView {
    UI(UIView),
    Artifact { build_name: Seq<char>, artifact: ArtifactView },
    Build { build_name: Seq<char>, build: BuildView },
}

pub ghost struct EventView {
    pub timestamp: Seq<char>,
    pub kind: EventKindView,
}

pub open spec fn opt_str_view(o: Option<String>) -> Option<Seq<char>> {
    match o {
        Some(s) => Some(s@),
        None => None,
    }
}

pub open spec fn strings_view(v: Seq<String>) -> Seq<Seq<char>> {
    v.map_values(|s: String| s@)
}

impl View for UI {
    type V = UIView;

    open spec fn view(&self) -> UIView {
        match self {
            UI::Say(s) => UIView::Say(s@),
            UI::Message(s) => UIView::Message(s@),
            UI::Error(s) => UIView::Error(s@),
        }
    }
}

impl View for Artifact {
    type V = ArtifactView;

    open spec fn view(&self) -> ArtifactView {
        ArtifactView {
            builder_id: self.builder_id@,
            id: opt_str_view(self.id),
            files: strings_view(self.files@),
        }
    }
}

impl View for Build {
    type V = BuildView;

    open spec fn view(&self) -> BuildView {
        BuildView { artifacts: self.artifacts@.map_values(|a: Artifact| a@) }
    }
}

impl View for EventKind {
    type V = EventKindView;

    open spec fn view(&self) -> EventKindView {
        match self {
            EventKind::UI(u) => EventKindView::UI(u@),
            EventKind::Artifact { build_name, artifact } => EventKindView::Artifact {
                build_name: build_name@,
                artifact: artifact@,
            },
            EventKind::Build { build_name, build } => EventKindView::Build {
                build_name: build_name@,
                build: build@,
            },
        }
    }
}

impl View for Event {
    type V = EventView;

    open spec fn view(&self) -> EventView {
        EventView { timestamp: self.timestamp@, kind: self.kind@ }
    }
}

pub open spec fn events_view(v: Seq<Event>) -> Seq<EventView> {
    v.map_values(|e: Event| e@)
}

/// Copies a list of strings element by element.
pub fn copy_strings(v: &Vec<String>) -> (r: Vec<String>)
    ensures
        strings_view(r@) == strings_view(v@),
{
    let mut r: Vec<String> = Vec::new();
    let mut i: usize = 0;
    while i < v.len()
        invariant
            i <= v@.len(),
            r@.len() == i,
            forall|j: int| 0 <= j < i ==> #[trigger] r@[j]@ == v@[j]@,
        decreases v@.len() - i,
    {
        r.push(v[i].clone());
        i = i + 1;
    }
    assert(strings_view(r@) =~= strings_view(v@));
    r
}

pub fn copy_opt_string(o: &Option<String>) -> (r: Option<String>)
    ensures
        opt_str_view(r) == opt_str_view(*o),
{
    match o {
        Some(s) => Some(s.clone()),
        None => None,
    }
}

impl Artifact {
    /// A copy of this artifact, field by field.
    pub fn duplicate(&self) -> (r: Artifact)
        ensures
            r@ == self@,
    {
        Artifact {
            builder_id: self.builder_id.clone(),
            id: copy_opt_string(&self.id),
            files: copy_strings(&self.files),
        }
    }
}

impl Build {
    /// A copy of this build, artifact by artifact.
    pub fn duplicate(&self) -> (r: Build)
        ensures
            r@ == self@,
    {
        let mut out: Vec<Artifact> = Vec::new();
        let mut i: usize = 0;
        while i < self.artifacts.len()
            invariant
                i <= self.artifacts@.len(),
                out@.len() == i,
                forall|j: int| 0 <= j < i ==> #[trigger] out@[j]@ == self.artifacts@[j]@,
            decreases self.artifacts@.len() - i,
        {
            out.push(self.artifacts[i].duplicate());
            i = i + 1;
        }
        assert(out@.map_values(|a: Artifact| a@) =~= self@.artifacts);
        Build { artifacts: out }
    }
}

} // verus!
