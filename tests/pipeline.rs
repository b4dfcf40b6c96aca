use wrangler::discover::{
    check_against_record, find_shaders, search_pattern, search_plan, CompilationCandidate, SearchItem,
};
use wrangler::finish::{Action, Finisher};
use wrangler::kind::{deduplicate_kinds, kind_ext};
use wrangler::output::output_path;
use wrangler::pipeline::{compile_outcomes, run_verdict, CompileOutput};
use wrangler::{Error, Record, ShaderKind, Timestamp};

fn ts(secs: i64, nanos: u32) -> Timestamp {
    Timestamp { secs, nanos }
}

fn cand(path: &str, kind: ShaderKind) -> CompilationCandidate {
    CompilationCandidate { location: path.to_string(), shader_kind: kind }
}

fn locations(v: &Vec<CompilationCandidate>) -> Vec<(String, ShaderKind)> {
    v.iter().map(|c| (c.location.clone(), c.shader_kind)).collect()
}

fn success(path: &str, kind: ShaderKind) -> Result<CompileOutput, Error> {
    Ok(CompileOutput { location: path.to_string(), shader_kind: kind, artifact: vec![3, 2, 0, 7] })
}

#[test]
fn extensions_of_supported_kinds() {
    assert_eq!(kind_ext(&ShaderKind::Vertex).unwrap(), "vert");
    assert_eq!(kind_ext(&ShaderKind::Fragment).unwrap(), "frag");
    assert_eq!(kind_ext(&ShaderKind::Compute).unwrap(), "comp");
}

#[test]
fn unsupported_kind_is_refused() {
    assert!(matches!(kind_ext(&ShaderKind::Geometry), Err(Error::UnsupportedKind(ShaderKind::Geometry))));
    assert!(matches!(
        search_plan("shaders", &vec![ShaderKind::Vertex, ShaderKind::TessControl]),
        Err(Error::UnsupportedKind(ShaderKind::TessControl))
    ));
}

#[test]
fn kinds_are_deduplicated_in_first_order() {
    let kinds = vec![
        ShaderKind::Fragment,
        ShaderKind::Vertex,
        ShaderKind::Fragment,
        ShaderKind::Compute,
        ShaderKind::Vertex,
    ];
    assert_eq!(deduplicate_kinds(&kinds), vec![ShaderKind::Fragment, ShaderKind::Vertex, ShaderKind::Compute]);
    assert_eq!(deduplicate_kinds(&vec![]), vec![]);
}

#[test]
fn search_pattern_of_a_kind() {
    assert_eq!(search_pattern("shaders", &ShaderKind::Vertex).unwrap(), "shaders/**/*.vert");
    let plan = search_plan("src", &vec![ShaderKind::Compute, ShaderKind::Compute, ShaderKind::Fragment]).unwrap();
    assert_eq!(plan.len(), 2);
    assert_eq!(plan[0].kind, ShaderKind::Compute);
    assert_eq!(plan[0].pattern, "src/**/*.comp");
    assert_eq!(plan[1].kind, ShaderKind::Fragment);
    assert_eq!(plan[1].pattern, "src/**/*.frag");
}

#[test]
fn malformed_search_expression_is_refused() {
    match search_pattern("a***b", &ShaderKind::Vertex) {
        Err(Error::BadGlobPattern(p)) => assert_eq!(p, "a***b/**/*.vert"),
        _ => panic!("expected a bad pattern"),
    }
}

#[test]
fn file_matched_by_two_kinds_is_two_candidates() {
    let plan = vec![
        SearchItem { kind: ShaderKind::Vertex, pattern: "s/**/*.vert".to_string() },
        SearchItem { kind: ShaderKind::Fragment, pattern: "s/**/*.frag".to_string() },
    ];
    let found = vec![
        vec!["s/a.glsl".to_string(), "s/b.glsl".to_string()],
        vec!["s/a.glsl".to_string()],
    ];
    let c = find_shaders(&plan, &found);
    assert_eq!(
        locations(&c),
        vec![
            ("s/a.glsl".to_string(), ShaderKind::Vertex),
            ("s/b.glsl".to_string(), ShaderKind::Vertex),
            ("s/a.glsl".to_string(), ShaderKind::Fragment),
        ]
    );
}

#[test]
fn outputs_of_two_kinds_do_not_collide() {
    let v = output_path("src", "out", &"src/x/m.vert".to_string(), &ShaderKind::Vertex).unwrap();
    let f = output_path("src", "out", &"src/x/m.frag".to_string(), &ShaderKind::Fragment).unwrap();
    assert_eq!(v, "out/x/m.spv_vert");
    assert_eq!(f, "out/x/m.spv_frag");
    assert_ne!(v, f);
}

#[test]
fn output_path_outside_the_root_is_none() {
    assert_eq!(output_path("src", "out", &"other/m.vert".to_string(), &ShaderKind::Vertex), None);
    assert_eq!(output_path("src", "out", &"src/m.frag".to_string(), &ShaderKind::Vertex), None);
    assert_eq!(output_path("src", "out", &"src/m.geom".to_string(), &ShaderKind::Geometry), None);
}

#[test]
fn record_logs_and_replaces() {
    let mut r = Record::new();
    assert_eq!(r.get(&"a".to_string()), None);
    r.log("a".to_string(), ts(10, 5));
    r.log("b".to_string(), ts(11, 0));
    r.log("a".to_string(), ts(9, 999_999_999));
    assert_eq!(r.get(&"a".to_string()), Some(ts(9, 999_999_999)));
    assert_eq!(r.get(&"b".to_string()), Some(ts(11, 0)));
}

#[test]
fn record_round_trips_exactly() {
    let mut r = Record::new();
    r.log("shaders/a.vert".to_string(), ts(1_700_000_000, 123_456_789));
    r.log("shaders/b.frag".to_string(), ts(-5, 1));
    let bytes = r.to_bytes();
    assert!(!bytes.is_empty());
    let back = Record::try_load(Some(bytes));
    assert_eq!(back.get(&"shaders/a.vert".to_string()), Some(ts(1_700_000_000, 123_456_789)));
    assert_eq!(back.get(&"shaders/b.frag".to_string()), Some(ts(-5, 1)));
    assert_eq!(back.get(&"shaders/c.comp".to_string()), None);
}

#[test]
fn missing_or_corrupt_record_starts_empty() {
    assert_eq!(Record::try_load(None).get(&"a".to_string()), None);
    let corrupt = Record::try_load(Some(vec![0xc1, 0xff, 0x00]));
    assert_eq!(corrupt.get(&"a".to_string()), None);
    let empty = Record::try_load(Some(vec![])).to_bytes();
    assert_eq!(Record::try_load(Some(empty)).get(&"a".to_string()), None);
}

#[test]
fn any_change_of_time_is_stale() {
    let mut r = Record::new();
    r.log("a".to_string(), ts(100, 0));
    r.log("b".to_string(), ts(100, 0));
    r.log("c".to_string(), ts(100, 0));
    let c = vec![
        cand("a", ShaderKind::Vertex),
        cand("b", ShaderKind::Vertex),
        cand("c", ShaderKind::Vertex),
        cand("d", ShaderKind::Vertex),
    ];
    let now = vec![Some(ts(100, 0)), Some(ts(99, 0)), Some(ts(100, 1)), None];
    let stale = check_against_record(&c, &r, &now);
    assert_eq!(
        locations(&stale),
        vec![
            ("b".to_string(), ShaderKind::Vertex),
            ("c".to_string(), ShaderKind::Vertex),
            ("d".to_string(), ShaderKind::Vertex),
        ]
    );
}

#[test]
fn untouched_files_are_not_compiled_again() {
    let c = vec![cand("s/a.vert", ShaderKind::Vertex), cand("s/b.frag", ShaderKind::Fragment)];
    let now = vec![Some(ts(50, 7)), Some(ts(60, 8))];
    let mut r = Record::new();
    let first = check_against_record(&c, &r, &now);
    assert_eq!(first.len(), 2);
    r.log("s/a.vert".to_string(), ts(50, 7));
    r.log("s/b.frag".to_string(), ts(60, 8));
    assert!(check_against_record(&c, &r, &now).is_empty());
}

#[test]
fn two_files_compiled_skipped_then_one_recompiled() {
    let c = vec![cand("src/a.vert", ShaderKind::Vertex), cand("src/b.frag", ShaderKind::Fragment)];
    let mut r = Record::new();
    let now = vec![Some(ts(1000, 1)), Some(ts(2000, 2))];
    let first = check_against_record(&c, &r, &now);
    assert_eq!(first.len(), 2);
    let outcomes = compile_outcomes(&first, vec![Ok(vec![1, 2]), Ok(vec![3, 4])]);
    let mut dests = Vec::new();
    for (i, o) in outcomes.iter().enumerate() {
        let o = o.as_ref().unwrap();
        dests.push(output_path("src", "out", &o.location, &o.shader_kind).unwrap());
        r.log(o.location.clone(), now[i].unwrap());
    }
    assert_eq!(dests, vec!["out/a.spv_vert".to_string(), "out/b.spv_frag".to_string()]);
    assert!(run_verdict(outcomes, true).is_ok());
    assert_eq!(r.get(&"src/a.vert".to_string()), Some(ts(1000, 1)));
    assert_eq!(r.get(&"src/b.frag".to_string()), Some(ts(2000, 2)));

    assert!(check_against_record(&c, &r, &now).is_empty());

    let later = vec![Some(ts(3000, 0)), Some(ts(2000, 2))];
    let third = check_against_record(&c, &r, &later);
    assert_eq!(locations(&third), vec![("src/a.vert".to_string(), ShaderKind::Vertex)]);
    r.log("src/a.vert".to_string(), ts(3000, 0));
    assert_eq!(r.get(&"src/b.frag".to_string()), Some(ts(2000, 2)));
}

#[test]
fn one_failure_in_best_effort_mode() {
    let c = vec![
        cand("s/a.vert", ShaderKind::Vertex),
        cand("s/b.vert", ShaderKind::Vertex),
        cand("s/c.vert", ShaderKind::Vertex),
    ];
    let now = vec![Some(ts(1, 0)), Some(ts(2, 0)), Some(ts(3, 0))];
    let mut r = Record::new();
    let stale = check_against_record(&c, &r, &now);
    let outcomes = compile_outcomes(
        &stale,
        vec![Ok(vec![1]), Err(Error::Compilation("b.vert: syntax error".to_string())), Ok(vec![2])],
    );
    assert!(outcomes[0].is_ok() && outcomes[1].is_err() && outcomes[2].is_ok());
    for (i, o) in outcomes.iter().enumerate() {
        if let Ok(o) = o {
            r.log(o.location.clone(), now[i].unwrap());
        }
    }
    assert!(run_verdict(outcomes, false).is_ok());
    let next = check_against_record(&c, &r, &now);
    assert_eq!(locations(&next), vec![("s/b.vert".to_string(), ShaderKind::Vertex)]);
}

#[test]
fn failures_terminate_with_every_error() {
    let outcomes = vec![
        Err(Error::Io("cannot read x".to_string())),
        success("s/y.vert", ShaderKind::Vertex),
        Err(Error::Compilation("z".to_string())),
    ];
    match run_verdict(outcomes, true) {
        Err(Error::BatchError(v)) => {
            assert_eq!(v.len(), 2);
            assert!(matches!(&v[0], Error::Io(m) if m == "cannot read x"));
            assert!(matches!(&v[1], Error::Compilation(m) if m == "z"));
        }
        _ => panic!("expected a batch error"),
    }
    assert!(run_verdict(vec![success("s/y.vert", ShaderKind::Vertex)], true).is_ok());
    assert!(run_verdict(vec![], true).is_ok());
}

#[test]
fn outcomes_keep_their_candidates() {
    let c = vec![cand("s/a.comp", ShaderKind::Compute), cand("s/b.frag", ShaderKind::Fragment)];
    let outcomes = compile_outcomes(&c, vec![Err(Error::Io("gone".to_string())), Ok(vec![9, 8, 7])]);
    assert!(matches!(&outcomes[0], Err(Error::Io(m)) if m == "gone"));
    let o = outcomes[1].as_ref().unwrap();
    assert_eq!(o.location, "s/b.frag");
    assert_eq!(o.shader_kind, ShaderKind::Fragment);
    assert_eq!(o.artifact, vec![9, 8, 7]);
}

#[test]
fn logged_successes_survive_a_failed_write() {
    let mut r = Record::new();
    r.log("s/old.vert".to_string(), ts(5, 5));
    r.log("s/a.vert".to_string(), ts(7, 0));
    let back = Record::try_load(Some(r.to_bytes()));
    assert_eq!(back.get(&"s/a.vert".to_string()), Some(ts(7, 0)));
    assert_eq!(back.get(&"s/old.vert".to_string()), Some(ts(5, 5)));
}

fn persisted_record(action: Action) -> Record {
    match action {
        Action::Persist { bytes } => Record::try_load(Some(bytes)),
        Action::Write { .. } => panic!("expected the record to be persisted"),
    }
}

#[test]
fn finisher_writes_each_output_then_persists() {
    let outcomes = vec![
        success("src/a.vert", ShaderKind::Vertex),
        Err(Error::Compilation("bad".to_string())),
        success("src/sub/b.frag", ShaderKind::Fragment),
    ];
    let mut f = Finisher::new(Record::new(), outcomes, "src", "out", false);
    match f.step() {
        Action::Write { index, dest } => {
            assert_eq!(index, 0);
            assert_eq!(dest, "out/a.spv_vert");
            assert_eq!(f.output(index).unwrap().artifact, vec![3, 2, 0, 7]);
        }
        _ => panic!("expected a write"),
    }
    f.written(Ok(ts(10, 1)));
    match f.step() {
        Action::Write { index, dest } => {
            assert_eq!(index, 2);
            assert_eq!(dest, "out/sub/b.spv_frag");
        }
        _ => panic!("expected a write"),
    }
    assert!(f.output(1).is_none());
    f.written(Ok(ts(20, 2)));
    let rec = persisted_record(f.step());
    assert_eq!(rec.get(&"src/a.vert".to_string()), Some(ts(10, 1)));
    assert_eq!(rec.get(&"src/sub/b.frag".to_string()), Some(ts(20, 2)));
    assert!(f.finish(Ok(())).is_ok());
}

#[test]
fn failed_write_still_persists_earlier_successes() {
    let mut start = Record::new();
    start.log("src/old.comp".to_string(), ts(1, 1));
    let outcomes = vec![
        success("src/a.vert", ShaderKind::Vertex),
        success("src/b.vert", ShaderKind::Vertex),
        success("src/c.vert", ShaderKind::Vertex),
    ];
    let mut f = Finisher::new(start, outcomes, "src", "out", false);
    assert!(matches!(f.step(), Action::Write { index: 0, .. }));
    f.written(Ok(ts(30, 0)));
    assert!(matches!(f.step(), Action::Write { index: 1, .. }));
    f.written(Err(Error::Io("disk full".to_string())));
    let rec = persisted_record(f.step());
    assert_eq!(rec.get(&"src/a.vert".to_string()), Some(ts(30, 0)));
    assert_eq!(rec.get(&"src/old.comp".to_string()), Some(ts(1, 1)));
    assert_eq!(rec.get(&"src/b.vert".to_string()), None);
    assert_eq!(rec.get(&"src/c.vert".to_string()), None);
    assert!(matches!(f.finish(Ok(())), Err(Error::Io(m)) if m == "disk full"));
}

#[test]
fn finisher_reports_batch_failure_when_asked() {
    let outcomes = vec![Err(Error::Compilation("x".to_string())), Err(Error::Io("y".to_string()))];
    let mut f = Finisher::new(Record::new(), outcomes, "src", "out", true);
    let rec = persisted_record(f.step());
    assert_eq!(rec.get(&"x".to_string()), None);
    match f.finish(Ok(())) {
        Err(Error::BatchError(v)) => assert_eq!(v.len(), 2),
        _ => panic!("expected a batch error"),
    }
}

#[test]
fn failed_persist_is_reported() {
    let mut f = Finisher::new(Record::new(), vec![], "src", "out", true);
    let _ = persisted_record(f.step());
    assert!(matches!(f.finish(Err(Error::Io("read-only".to_string()))), Err(Error::Io(m)) if m == "read-only"));
}

#[test]
fn output_outside_root_fails_the_write() {
    let mut f = Finisher::new(Record::new(), vec![success("elsewhere/a.vert", ShaderKind::Vertex)], "src", "out", false);
    let rec = persisted_record(f.step());
    assert_eq!(rec.get(&"elsewhere/a.vert".to_string()), None);
    assert!(matches!(f.finish(Ok(())), Err(Error::Io(_))));
}

#[test]
fn persisted_record_reloads_and_skips_everything() {
    let c = vec![cand("src/a.vert", ShaderKind::Vertex), cand("src/b.frag", ShaderKind::Fragment)];
    let now = vec![Some(ts(1000, 1)), Some(ts(2000, 2))];
    let first = Record::try_load(None);
    let stale = check_against_record(&c, &first, &vec![None, None]);
    let outcomes = compile_outcomes(&stale, vec![Ok(vec![1]), Ok(vec![2])]);
    let mut f = Finisher::new(first, outcomes, "src", "out", true);
    for i in 0..2 {
        assert!(matches!(f.step(), Action::Write { .. }));
        f.written(Ok(now[i].unwrap()));
    }
    let bytes = match f.step() {
        Action::Persist { bytes } => bytes,
        Action::Write { .. } => panic!("expected the record to be persisted"),
    };
    assert!(f.finish(Ok(())).is_ok());
    let second = Record::try_load(Some(bytes));
    assert!(check_against_record(&c, &second, &now).is_empty());
}
