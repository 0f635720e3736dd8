use timeline_engine::codec::{project_from_json, project_to_json};
use timeline_engine::{Clip, Command, Engine, Project, Timeline};

fn clip(id: &str, url: &str, in_point: u64, out_point: u64) -> Clip {
    Clip { id: id.to_string(), url: url.to_string(), in_point, out_point }
}

fn project(name: &str, clips: Vec<Clip>) -> Project {
    Project {
        name: name.to_string(),
        timeline: Timeline { clips },
        created_at: "2024-01-02T03:04:05+00:00".to_string(),
        modified_at: "2024-01-02T03:04:06+00:00".to_string(),
    }
}

fn assert_projects_equal(a: &Project, b: &Project) {
    assert_eq!(a.name, b.name);
    assert_eq!(a.created_at, b.created_at);
    assert_eq!(a.modified_at, b.modified_at);
    assert_eq!(a.timeline.clips.len(), b.timeline.clips.len());
    for (x, y) in a.timeline.clips.iter().zip(b.timeline.clips.iter()) {
        assert_eq!(x.id, y.id);
        assert_eq!(x.url, y.url);
        assert_eq!(x.in_point, y.in_point);
        assert_eq!(x.out_point, y.out_point);
    }
}

#[test]
fn renders_exact_document() {
    let p = project("Demo", vec![clip("c1", "file://a.mp4", 0, 1500)]);
    let json = project_to_json(&p);
    assert_eq!(
        json,
        "{\"name\":\"Demo\",\"timeline\":{\"clips\":[\
         {\"id\":\"c1\",\"url\":\"file://a.mp4\",\"in_point\":0,\"out_point\":1500}\
         ]},\"created_at\":\"2024-01-02T03:04:05+00:00\",\
         \"modified_at\":\"2024-01-02T03:04:06+00:00\"}"
    );
}

#[test]
fn round_trips_a_plain_project() {
    let p = project(
        "My Movie",
        vec![clip("c1", "file://a.mp4", 0, 1500), clip("c2", "file://b.mp4", 250, 900)],
    );
    let back = project_from_json(&project_to_json(&p)).expect("rendered documents parse");
    assert_projects_equal(&p, &back);
}

#[test]
fn round_trips_an_empty_timeline() {
    let p = project("Empty", vec![]);
    let back = project_from_json(&project_to_json(&p)).unwrap();
    assert_projects_equal(&p, &back);
    assert!(back.timeline.clips.is_empty());
}

#[test]
fn round_trips_strings_that_need_escapes() {
    let p = project(
        "Quote \" backslash \\ tab \t newline \n done",
        vec![clip("id-\"x\"", "file://weird \\ path \r", 7, 9)],
    );
    let back = project_from_json(&project_to_json(&p)).unwrap();
    assert_projects_equal(&p, &back);
}

#[test]
fn round_trips_non_ascii_text() {
    let p = project("Fête 🎬", vec![clip("clip-é", "file://vidéo.mp4", 1, 2)]);
    let back = project_from_json(&project_to_json(&p)).unwrap();
    assert_projects_equal(&p, &back);
}

#[test]
fn round_trips_extreme_millisecond_values() {
    let p = project("Edges", vec![clip("c", "u", 0, u64::MAX)]);
    let back = project_from_json(&project_to_json(&p)).unwrap();
    assert_projects_equal(&p, &back);
}

#[test]
fn parses_documents_with_whitespace_between_tokens() {
    let text = "  {\n  \"name\" : \"Demo\" ,\n  \"timeline\" : { \"clips\" : [\n    \
                { \"id\" : \"c1\" , \"url\" : \"u\" , \"in_point\" : 3 , \"out_point\" : 44 }\n  \
                ] } ,\n  \"created_at\" : \"t0\" ,\n  \"modified_at\" : \"t1\"\n}\n";
    let p = project_from_json(text).expect("whitespace between tokens is accepted");
    assert_eq!(p.name, "Demo");
    assert_eq!(p.timeline.clips.len(), 1);
    assert_eq!(p.timeline.clips[0].in_point, 3);
    assert_eq!(p.timeline.clips[0].out_point, 44);
    assert_eq!(p.created_at, "t0");
    assert_eq!(p.modified_at, "t1");
}

#[test]
fn rejects_malformed_documents() {
    assert!(project_from_json("").is_none());
    assert!(project_from_json("not json").is_none());
    assert!(project_from_json("{\"name\":\"x\"}").is_none());
    assert!(project_from_json("{\"name\":\"x\",\"timeline\":{\"clips\":[]},\"created_at\":\"a\",\"modified_at\":\"b\"").is_none());
    assert!(project_from_json("{\"wrong\":\"x\",\"timeline\":{\"clips\":[]},\"created_at\":\"a\",\"modified_at\":\"b\"}").is_none());
    // An unterminated string.
    assert!(project_from_json("{\"name\":\"x").is_none());
    // Trailing text after the document.
    assert!(project_from_json("{\"name\":\"x\",\"timeline\":{\"clips\":[]},\"created_at\":\"a\",\"modified_at\":\"b\"}}").is_none());
}

#[test]
fn rejects_numbers_that_overflow() {
    let text = "{\"name\":\"x\",\"timeline\":{\"clips\":[\
                {\"id\":\"c\",\"url\":\"u\",\"in_point\":18446744073709551616,\"out_point\":9}\
                ]},\"created_at\":\"a\",\"modified_at\":\"b\"}";
    assert!(project_from_json(text).is_none());
    let max = "{\"name\":\"x\",\"timeline\":{\"clips\":[\
               {\"id\":\"c\",\"url\":\"u\",\"in_point\":18446744073709551615,\"out_point\":9}\
               ]},\"created_at\":\"a\",\"modified_at\":\"b\"}";
    let p = project_from_json(max).unwrap();
    assert_eq!(p.timeline.clips[0].in_point, u64::MAX);
}

#[test]
fn engine_serializes_and_reloads_its_project() {
    let mut engine = Engine::new();
    engine.handle(Command::AddClip(clip("c1", "file://a.mp4", 10, 400), 0));
    engine.handle(Command::AddClip(clip("c2", "file://b.mp4", 0, 250), 1));
    engine.set_current_file_path(Some("/tmp/x.tl".to_string()));
    let json = engine.get_project_as_json().expect("a project is open");

    let mut other = Engine::new();
    assert!(other.load_project_from_json(&json));
    let original = engine.project.as_ref().unwrap();
    let reloaded = other.project.as_ref().unwrap();
    assert_projects_equal(original, reloaded);
    assert!(!other.is_dirty, "a freshly loaded project is not dirty");
    assert!(other.current_file_path.is_none(), "the path is unknown until the caller sets it");
}

#[test]
fn failed_load_leaves_the_engine_untouched() {
    let mut engine = Engine::new();
    engine.handle(Command::AddClip(clip("keep", "u", 1, 2), 0));
    let before = engine.get_project_as_json().unwrap();
    let dirty_before = engine.is_dirty;
    assert!(!engine.load_project_from_json("{broken"));
    assert_eq!(engine.get_project_as_json().unwrap(), before);
    assert_eq!(engine.is_dirty, dirty_before);
    assert_eq!(engine.project.as_ref().unwrap().timeline.clips[0].id, "keep");
}
