use std::str::FromStr;

use buildlog::artifact::PartialArtifactLog;
use buildlog::build_log::{BuildLogEventKind, PartialBuildLog};
use buildlog::error::{Stage, Tag};
use buildlog::token::parse_usize;
use buildlog::{Artifact, Decoding, Error, Event, EventKind, EventLog, Filter, UI};

fn toks(line: &str) -> Vec<String> {
    line.split(',').map(|s| s.to_string()).collect()
}

fn feed(log: &mut EventLog, lines: &[&str]) -> Vec<Event> {
    let mut events = Vec::new();
    for line in lines {
        let r = log.try_decode(&toks(line), &mut events);
        assert!(matches!(r, Ok(Decoding::Partial)), "line {} gave {:?}", line, r);
    }
    events
}

fn artifact_of(e: &Event) -> (&str, &Artifact) {
    match &e.kind {
        EventKind::Artifact { build_name, artifact } => (build_name.as_str(), artifact),
        other => panic!("not an artifact event: {:?}", other),
    }
}

fn build_of(e: &Event) -> &buildlog::Build {
    match &e.kind {
        EventKind::Build { build, .. } => build,
        other => panic!("not a build event: {:?}", other),
    }
}

const EXAMPLE: &str = "0,,ui,say,starting
1,b1,artifact-count,2
2,b1,artifact,1,builder-id,docker
3,b1,artifact,0,builder-id,amazon-ebs
4,b1,artifact,0,id,ami-123
5,b1,artifact,1,id,
6,,ui,message,working
7,b1,artifact,0,string,an image
8,b1,artifact,0,files-count,0
9,b1,artifact,1,string,a container
10,b1,artifact,0,end
11,b1,artifact,1,files-count,2
12,b1,artifact,1,file,1,second.tar
13,b1,artifact,1,file,0,first.tar
14,b1,artifact,1,end
15,,ui,error,done with warnings";

#[test]
fn parse_build_log() {
    let mut log = EventLog::default();
    let mut events = Vec::new();
    for line in EXAMPLE.lines() {
        log.try_decode(&toks(line), &mut events).unwrap();
    }
    assert_eq!(events.len(), 6);
    assert!(matches!(&events[0].kind, EventKind::UI(UI::Say(s)) if s == "starting"));
    assert!(matches!(&events[1].kind, EventKind::UI(UI::Message(s)) if s == "working"));
    let (name, a0) = artifact_of(&events[2]);
    assert_eq!(name, "b1");
    assert_eq!(events[2].timestamp, "10");
    assert_eq!(a0.builder_id, "amazon-ebs");
    assert_eq!(a0.id.as_deref(), Some("ami-123"));
    assert!(a0.files.is_empty());
    let (_, a1) = artifact_of(&events[3]);
    assert_eq!(a1.builder_id, "docker");
    assert_eq!(a1.id, None);
    assert_eq!(a1.files, vec!["first.tar".to_string(), "second.tar".to_string()]);
    let b = build_of(&events[4]);
    assert_eq!(events[4].timestamp, "14");
    assert_eq!(b.artifacts.len(), 2);
    assert_eq!(b.artifacts[0].builder_id, "amazon-ebs");
    assert_eq!(b.artifacts[1].builder_id, "docker");
    assert!(matches!(&events[5].kind, EventKind::UI(UI::Error(s)) if s == "done with warnings"));
    assert_eq!(events[5].timestamp, "15");
}

#[test]
fn test_parsing() {
    let err = Filter::from_str("unknown_event").expect_err("filtering by unknown_event should error");
    assert_eq!(err, "unknown_event does not match any filtereable event");
}

#[test]
fn filter_names() {
    assert_eq!(Filter::from_str("builds"), Ok(Filter::Builds));
    assert_eq!(Filter::from_str("artifacts"), Ok(Filter::Artifacts));
    assert_eq!(Filter::from_str("messages"), Ok(Filter::Messages));
    assert!(Filter::from_str("Builds").is_err());
}

#[test]
fn end_to_end_single_artifact() {
    let mut log = EventLog::new();
    let lines = [
        "0,b1,artifact-count,1",
        "1,b1,artifact,0,builder-id,pkgA",
        "2,b1,artifact,0,id,",
        "3,b1,artifact,0,string,desc",
        "4,b1,artifact,0,files-count,1",
        "5,b1,artifact,0,file,0,out.bin",
    ];
    let events = feed(&mut log, &lines);
    assert!(events.is_empty());
    let events = feed(&mut log, &["6,b1,artifact,0,end"]);
    assert_eq!(events.len(), 2);
    let (name, a) = artifact_of(&events[0]);
    assert_eq!(name, "b1");
    assert_eq!(events[0].timestamp, "6");
    assert_eq!(a.builder_id, "pkgA");
    assert_eq!(a.id, None);
    assert_eq!(a.files, vec!["out.bin".to_string()]);
    let b = build_of(&events[1]);
    assert_eq!(events[1].timestamp, "6");
    assert!(matches!(&events[1].kind, EventKind::Build { build_name, .. } if build_name == "b1"));
    assert_eq!(b.artifacts.len(), 1);
    assert_eq!(b.artifacts[0].files, vec!["out.bin".to_string()]);
}

fn build_lines(name: &str) -> Vec<String> {
    vec![
        format!("0,{},artifact-count,1", name),
        format!("1,{},artifact,0,builder-id,{}-builder", name, name),
        format!("2,{},artifact,0,id,{}-id", name, name),
        format!("3,{},artifact,0,string,s", name),
        format!("4,{},artifact,0,files-count,3", name),
        format!("5,{},artifact,0,file,2,c", name),
        format!("6,{},artifact,0,file,0,a", name),
        format!("7,{},artifact,0,file,1,b", name),
        format!("8,{},artifact,0,end", name),
    ]
}

#[test]
fn files_in_slot_order() {
    let lines = build_lines("x");
    let refs: Vec<&str> = lines.iter().map(|s| s.as_str()).collect();
    let events = feed(&mut EventLog::new(), &refs);
    assert_eq!(events.len(), 2);
    let (_, a) = artifact_of(&events[0]);
    assert_eq!(a.files, vec!["a".to_string(), "b".to_string(), "c".to_string()]);
}

#[test]
fn interleaved_builds_match_contiguous() {
    let x = build_lines("x");
    let y = build_lines("y");
    let mut inter: Vec<&str> = Vec::new();
    for i in 0..x.len() {
        inter.push(&y[i]);
        inter.push(&x[i]);
    }
    let mixed = feed(&mut EventLog::new(), &inter);
    let xs: Vec<&str> = x.iter().map(|s| s.as_str()).collect();
    let ys: Vec<&str> = y.iter().map(|s| s.as_str()).collect();
    let alone_x = feed(&mut EventLog::new(), &xs);
    let alone_y = feed(&mut EventLog::new(), &ys);
    let mixed_x: Vec<String> = mixed
        .iter()
        .filter(|e| match &e.kind {
            EventKind::Artifact { build_name, .. } => build_name == "x",
            EventKind::Build { build_name, .. } => build_name == "x",
            _ => false,
        })
        .map(|e| format!("{:?}", e))
        .collect();
    let mixed_y: Vec<String> = mixed
        .iter()
        .filter(|e| match &e.kind {
            EventKind::Artifact { build_name, .. } => build_name == "y",
            EventKind::Build { build_name, .. } => build_name == "y",
            _ => false,
        })
        .map(|e| format!("{:?}", e))
        .collect();
    assert_eq!(mixed_x, alone_x.iter().map(|e| format!("{:?}", e)).collect::<Vec<_>>());
    assert_eq!(mixed_y, alone_y.iter().map(|e| format!("{:?}", e)).collect::<Vec<_>>());
    assert_eq!(mixed.len(), 4);
}

#[test]
fn build_completes_after_last_artifact() {
    let lines = [
        "0,b,artifact-count,2",
        "1,b,artifact,1,builder-id,q",
        "2,b,artifact,1,id,i",
        "3,b,artifact,1,string,s",
        "4,b,artifact,1,files-count,0",
        "5,b,artifact,1,end",
    ];
    let mut log = EventLog::new();
    let events = feed(&mut log, &lines);
    assert_eq!(events.len(), 1);
    let (_, a) = artifact_of(&events[0]);
    assert_eq!(a.builder_id, "q");
    let rest = [
        "6,b,artifact,0,builder-id,p",
        "7,b,artifact,0,id,j",
        "8,b,artifact,0,string,s",
        "9,b,artifact,0,files-count,0",
        "10,b,artifact,0,end",
    ];
    let events = feed(&mut log, &rest);
    assert_eq!(events.len(), 2);
    let b = build_of(&events[1]);
    assert_eq!(b.artifacts[0].builder_id, "p");
    assert_eq!(b.artifacts[1].builder_id, "q");
}

#[test]
fn tag_mismatch_in_artifact() {
    let mut log = EventLog::new();
    feed(&mut log, &["0,b,artifact-count,1"]);
    let mut events = Vec::new();
    let r = log.try_decode(&toks("1,b,artifact,0,id,x"), &mut events);
    match r {
        Err(Error::UnexpectedToken { stage, expected, actual }) => {
            assert_eq!(stage, Stage::Artifact);
            assert_eq!(expected, Tag::BuilderId);
            assert_eq!(actual, "id");
        },
        other => panic!("{:?}", other),
    }
    assert!(events.is_empty());
    // the log is unchanged: the right line is still accepted
    feed(&mut log, &["2,b,artifact,0,builder-id,x"]);
}

#[test]
fn tag_mismatch_in_build() {
    let mut log = EventLog::new();
    let mut events = Vec::new();
    let r = log.try_decode(&toks("0,b,artifact,0,builder-id,x"), &mut events);
    match r {
        Err(Error::UnexpectedToken { stage, expected, actual }) => {
            assert_eq!(stage, Stage::Build);
            assert_eq!(expected, Tag::ArtifactCount);
            assert_eq!(actual, "artifact");
        },
        other => panic!("{:?}", other),
    }
    assert!(events.is_empty());
}

#[test]
fn global_lines_do_not_touch_builds() {
    let mut log = EventLog::new();
    feed(&mut log, &["0,b,artifact-count,1", "1,b,artifact,0,builder-id,x"]);
    let events = feed(&mut log, &["2,,ui,say,hello", "3,,ui,error,oops"]);
    assert_eq!(events.len(), 2);
    assert_eq!(events[0].timestamp, "2");
    assert!(matches!(&events[0].kind, EventKind::UI(UI::Say(s)) if s == "hello"));
    assert!(matches!(&events[1].kind, EventKind::UI(UI::Error(s)) if s == "oops"));
    let events = feed(&mut log, &["4,b,artifact,0,id,", "5,b,artifact,0,string,s", "6,b,artifact,0,files-count,0", "7,b,artifact,0,end"]);
    assert_eq!(events.len(), 2);
}

fn decode_err(lines: &[&str], last: &str) -> Error {
    let mut log = EventLog::new();
    feed(&mut log, lines);
    let mut events = Vec::new();
    let r = log.try_decode(&toks(last), &mut events);
    assert!(events.is_empty());
    r.expect_err("line should be refused")
}

#[test]
fn error_variants() {
    assert!(matches!(decode_err(&[], "0"), Error::MissingToken { stage: Stage::Log }));
    assert!(matches!(decode_err(&[], "0,,ui,say"), Error::MissingToken { stage: Stage::Log }));
    assert!(matches!(decode_err(&[], "0,,log,say,x"), Error::UnknownMessageType { actual } if actual == "log"));
    assert!(matches!(decode_err(&[], "0,,ui,shout,x"), Error::UnknownUiType { actual } if actual == "shout"));
    assert!(matches!(decode_err(&[], "0,b,artifact-count,two"), Error::InvalidNumber { actual } if actual == "two"));
    assert!(matches!(decode_err(&[], "0,b,artifact-count"), Error::MissingToken { stage: Stage::Build }));
    assert!(matches!(
        decode_err(&["0,b,artifact-count,1"], "1,b,artifact,3,builder-id,x"),
        Error::SlotOutOfRange { stage: Stage::Build, index: 3, count: 1 }
    ));
    let start = ["0,b,artifact-count,1", "1,b,artifact,0,builder-id,x", "2,b,artifact,0,id,", "3,b,artifact,0,string,s", "4,b,artifact,0,files-count,2"];
    assert!(matches!(
        decode_err(&start, "5,b,artifact,0,file,2,f"),
        Error::SlotOutOfRange { stage: Stage::Artifact, index: 2, count: 2 }
    ));
    assert!(matches!(decode_err(&start, "5,b,artifact,0,file,1"), Error::MissingToken { stage: Stage::Artifact }));
    let mut twice: Vec<&str> = start.to_vec();
    twice.push("5,b,artifact,0,file,1,f");
    twice.push("6,b,artifact,0,file,1,g");
    assert!(matches!(decode_err(&twice, "7,b,artifact,0,end"), Error::IncompleteArtifact));
    let mut done: Vec<&str> = start.to_vec();
    done.push("5,b,artifact,0,file,1,f");
    done.push("6,b,artifact,0,file,0,g");
    done.push("7,b,artifact,0,end");
    assert!(matches!(decode_err(&done, "8,b,artifact,0,end"), Error::AlreadyFinished { stage: Stage::Build }));
}

#[test]
fn artifact_decoder_alone() {
    let mut a = PartialArtifactLog::new();
    for line in ["builder-id,b", "id,x", "string,s", "files-count,1", "file,0,f"] {
        assert_eq!(a.try_decode(&toks(line), 0).unwrap(), Decoding::Partial);
    }
    assert!(a.finished().is_none());
    assert_eq!(a.try_decode(&toks("end"), 0).unwrap(), Decoding::Done);
    let done = a.finished().expect("artifact is complete");
    assert_eq!(done.builder_id, "b");
    assert_eq!(done.id.as_deref(), Some("x"));
    assert_eq!(done.files, vec!["f".to_string()]);
    assert!(matches!(a.try_decode(&toks("end"), 0), Err(Error::AlreadyFinished { stage: Stage::Artifact })));
}

#[test]
fn build_decoder_alone() {
    let mut b = PartialBuildLog::new();
    let mut out = Vec::new();
    assert_eq!(b.try_decode(&toks("artifact-count,1"), 0, &mut out).unwrap(), Decoding::Partial);
    for line in ["artifact,0,builder-id,b", "artifact,0,id,", "artifact,0,string,s", "artifact,0,files-count,0"] {
        assert_eq!(b.try_decode(&toks(line), 0, &mut out).unwrap(), Decoding::Partial);
    }
    assert!(out.is_empty());
    assert_eq!(b.try_decode(&toks("artifact,0,end"), 0, &mut out).unwrap(), Decoding::Done);
    assert_eq!(out.len(), 2);
    assert!(matches!(&out[0], BuildLogEventKind::Artifact(a) if a.builder_id == "b"));
    assert!(matches!(&out[1], BuildLogEventKind::Done(b) if b.artifacts.len() == 1));
}

#[test]
fn numbers() {
    assert_eq!(parse_usize("0"), Some(0));
    assert_eq!(parse_usize("042"), Some(42));
    assert_eq!(parse_usize("18446744073709551615"), Some(usize::MAX));
    assert_eq!(parse_usize("18446744073709551616"), None);
    assert_eq!(parse_usize(""), None);
    assert_eq!(parse_usize("1a"), None);
    assert_eq!(parse_usize("-1"), None);
    assert_eq!(parse_usize("+5"), Some(5));
    assert_eq!(parse_usize("+"), None);
    assert_eq!(parse_usize("-"), None);
    assert_eq!(parse_usize("++5"), None);
    assert_eq!(parse_usize("+18446744073709551616"), None);
}

#[test]
fn signed_counts_and_indexes() {
    let lines = [
        "0,b,artifact-count,+1",
        "1,b,artifact,+0,builder-id,p",
        "2,b,artifact,0,id,",
        "3,b,artifact,0,string,s",
        "4,b,artifact,0,files-count,+2",
        "5,b,artifact,0,file,+1,second",
        "6,b,artifact,0,file,+0,first",
        "7,b,artifact,0,end",
    ];
    let events = feed(&mut EventLog::new(), &lines);
    assert_eq!(events.len(), 2);
    let (_, a) = artifact_of(&events[0]);
    assert_eq!(a.files, vec!["first".to_string(), "second".to_string()]);
    assert!(matches!(decode_err(&[], "0,b,artifact-count,-1"), Error::InvalidNumber { actual } if actual == "-1"));
    assert!(matches!(decode_err(&[], "0,b,artifact-count,+"), Error::InvalidNumber { actual } if actual == "+"));
}

#[test]
fn artifact_decoder_default_is_root() {
    let mut a = PartialArtifactLog::default();
    assert!(a.finished().is_none());
    assert_eq!(a.try_decode(&toks("builder-id,b"), 0).unwrap(), Decoding::Partial);
    assert!(matches!(
        PartialArtifactLog::default().try_decode(&toks("id,x"), 0),
        Err(Error::UnexpectedToken { stage: Stage::Artifact, expected: Tag::BuilderId, .. })
    ));
}
