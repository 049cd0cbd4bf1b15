use godust::context::VarContext;
use godust::context::build_context;
use godust::error::ScaffoldError;
use godust::project::Project;
use godust::render::count_uid_calls;
use godust::render::render_content;
use godust::rendering_method::format_rendering_method;
use godust::structure::structure_paths;
use godust::substitute::substitute_path_variables;
use godust::template_parser::SourceEntry;
use godust::template_parser::WriteContent;
use godust::template_parser::discover_template_structure;
use godust::template_parser::plan_writes;
use godust::template_parser::validate_destination;
use godust::template_processing::process_template_file;
use godust::uid::generate_godot_uid;

fn widget_context() -> VarContext {
    let mut ctx = VarContext::new();
    ctx.insert("name", "widget");
    ctx
}

fn components(parts: &[&str]) -> Vec<String> {
    parts.iter().map(|p| p.to_string()).collect()
}

#[test]
fn context_insert_get_and_overwrite() {
    let mut ctx = VarContext::new();
    assert_eq!(ctx.get("name"), None);
    ctx.insert("name", "widget");
    assert_eq!(ctx.get("name"), Some("widget".to_string()));
    ctx.insert("name", "gadget");
    assert_eq!(ctx.get("name"), Some("gadget".to_string()));
    ctx.insert("other", "x");
    assert_eq!(ctx.get("name"), Some("gadget".to_string()));
    assert_eq!(ctx.get("other"), Some("x".to_string()));
}

#[test]
fn build_context_holds_name_variants_and_versions() {
    let ctx = build_context("my_game", "4.3", "forward_plus", "Forward Plus", "0.1.3", "0.14.2");
    assert_eq!(ctx.get("project_name"), Some("my_game".to_string()));
    assert_eq!(ctx.get("project_kebab_name"), Some("my-game".to_string()));
    assert_eq!(ctx.get("struct_name"), Some("MyGame".to_string()));
    assert_eq!(ctx.get("godot_version"), Some("0.1.3".to_string()));
    assert_eq!(ctx.get("bevy_ecs_version"), Some("0.14.2".to_string()));
    assert_eq!(ctx.get("engine_version"), Some("4.3".to_string()));
    assert_eq!(ctx.get("rendering_method"), Some("forward_plus".to_string()));
    assert_eq!(ctx.get("rendering_method_formatted"), Some("Forward Plus".to_string()));
    assert_eq!(ctx.get("missing"), None);
}

#[test]
fn rendering_method_formatting() {
    assert_eq!(format_rendering_method(&"forward_plus".to_string()), "Forward Plus");
    assert_eq!(format_rendering_method(&"gl_compatibility".to_string()), "GL Compatibility");
    assert_eq!(format_rendering_method(&"mobile".to_string()), "Mobile");
    assert_eq!(format_rendering_method(&"vulkan".to_string()), "Forward Plus");
    assert_eq!(Project::format_rendering_method("forward_plus"), "Forward Plus");
    assert_eq!(Project::format_rendering_method("gl_compatibility"), "GL Compatibility");
    assert_eq!(Project::format_rendering_method("mobile"), "Mobile");
    assert_eq!(Project::format_rendering_method("anything"), "Forward Plus");
}

#[test]
fn project_structure_paths() {
    let project = Project::default();
    let paths = project.structure_paths("my_game");
    assert_eq!(
        paths,
        vec![
            "my-game".to_string(),
            "my-game/my-game".to_string(),
            "my-game/my_game_core".to_string(),
            "my-game/my_game_core/src".to_string(),
        ]
    );
}

#[test]
fn free_structure_paths() {
    let paths = structure_paths(&"my_game".to_string());
    assert_eq!(
        paths,
        vec![
            "my-game".to_string(),
            "my-game/my-game".to_string(),
            "my-game/my_game_core".to_string(),
            "my-game/my_game_core/src".to_string(),
        ]
    );
}

#[test]
fn generated_uid_has_the_documented_shape() {
    for _ in 0..8 {
        let uid = generate_godot_uid();
        assert_eq!(uid.len(), 19);
        assert!(uid.starts_with("uid://"));
        assert!(uid[6..]
            .chars()
            .all(|c| c.is_ascii_lowercase() || c.is_ascii_digit()));
    }
    let a = generate_godot_uid();
    let b = generate_godot_uid();
    assert!(a.starts_with("uid://") && b.starts_with("uid://"));
}

#[test]
fn substitute_path_rewrites_each_component() {
    let ctx = widget_context();
    let path = components(&["{{name}}", "b.txt"]);
    let out = substitute_path_variables(&path, &ctx).unwrap();
    assert_eq!(out, vec!["widget".to_string(), "b.txt".to_string()]);
}

#[test]
fn substitute_path_trims_and_resolves_spaced_tokens() {
    let ctx = widget_context();
    let path = components(&["{{ name }}-suffix"]);
    let out = substitute_path_variables(&path, &ctx).unwrap();
    assert_eq!(out, vec!["widget-suffix".to_string()]);
}

#[test]
fn substitute_path_reports_missing_variable_with_path() {
    let ctx = VarContext::new();
    let path = components(&["{{name}}", "b.txt"]);
    let err = substitute_path_variables(&path, &ctx).unwrap_err();
    match err {
        ScaffoldError::MissingVariable { name, path } => {
            assert_eq!(name, "name");
            assert_eq!(path, "{{name}}/b.txt");
        },
        other => panic!("unexpected error: {:?}", other),
    }
}

#[test]
fn render_substitutes_variables_and_uid_calls() {
    let ctx = widget_context();
    let out = render_content("t.tera", "hello {{ name }}!", &ctx).unwrap();
    assert_eq!(out, "hello widget!");

    assert_eq!(count_uid_calls("a {{ generate_uid() }} b {{generate_uid()}}"), 2);
    let with_uid = render_content("t.tera", "id=\"{{ generate_uid() }}\"", &ctx).unwrap();
    assert!(with_uid.starts_with("id=\""));
    assert!(with_uid.ends_with("\""));
    let body = &with_uid[4..with_uid.len() - 1];
    assert_eq!(body.len(), 13);
    assert!(body.chars().all(|c| c.is_ascii_lowercase() || c.is_ascii_digit()));
}

#[test]
fn render_fails_on_missing_variable() {
    let ctx = widget_context();
    let err = render_content("t.tera", "value: {{ missing }}", &ctx).unwrap_err();
    match err {
        ScaffoldError::MissingVariable { name, path } => {
            assert_eq!(name, "missing");
            assert_eq!(path, "t.tera");
        },
        other => panic!("unexpected error: {:?}", other),
    }
}

#[test]
fn render_fails_on_unclosed_token() {
    let ctx = widget_context();
    let err = render_content("t.tera", "broken {{ name", &ctx).unwrap_err();
    match err {
        ScaffoldError::RenderError { template, .. } => {
            assert_eq!(template, "t.tera");
        },
        other => panic!("unexpected error: {:?}", other),
    }
}

#[test]
fn discovery_partitions_by_template_marker() {
    let entries = vec![
        SourceEntry {
            path: Some(components(&["blank", "a.tera"])),
            content: b"hello {{ name }}".to_vec(),
        },
        SourceEntry {
            path: Some(components(&["blank", "{{name}}", "b.txt"])),
            content: b"static bytes".to_vec(),
        },
    ];
    let base = components(&["blank"]);
    let ts = discover_template_structure(&entries, &base).unwrap();
    assert_eq!(ts.renderable_files.len(), 1);
    assert_eq!(ts.static_files.len(), 1);
    assert_eq!(ts.renderable_files[0].rel_path, vec!["a.tera".to_string()]);
    assert_eq!(
        ts.static_files[0].rel_path,
        vec!["{{name}}".to_string(), "b.txt".to_string()]
    );
}

#[test]
fn discovery_fails_on_unrepresentable_path() {
    let entries = vec![SourceEntry { path: None, content: vec![1, 2, 3] }];
    let err = discover_template_structure(&entries, &Vec::new()).unwrap_err();
    assert!(matches!(err, ScaffoldError::InvalidEncoding { .. }));
}

#[test]
fn plan_renders_and_copies_with_substituted_paths() {
    let entries = vec![
        SourceEntry {
            path: Some(components(&["a.tera"])),
            content: b"hello {{ name }}".to_vec(),
        },
        SourceEntry {
            path: Some(components(&["{{name}}", "b.txt"])),
            content: b"static bytes".to_vec(),
        },
    ];
    let ts = discover_template_structure(&entries, &Vec::new()).unwrap();
    let ctx = widget_context();
    let plan = plan_writes(&ts, &ctx).unwrap();
    assert_eq!(plan.len(), 2);
    assert_eq!(plan[0].dest_path, vec!["a".to_string()]);
    match &plan[0].content {
        WriteContent::Rendered(text) => assert_eq!(text, "hello widget"),
        other => panic!("unexpected content: {:?}", other),
    }
    assert_eq!(plan[1].dest_path, vec!["widget".to_string(), "b.txt".to_string()]);
    match &plan[1].content {
        WriteContent::Copied(bytes) => assert_eq!(bytes, b"static bytes"),
        other => panic!("unexpected content: {:?}", other),
    }
}

#[test]
fn plan_fails_on_missing_content_variable_before_any_write() {
    let entries = vec![SourceEntry {
        path: Some(components(&["a.tera"])),
        content: b"value: {{ missing }}".to_vec(),
    }];
    let ts = discover_template_structure(&entries, &Vec::new()).unwrap();
    let ctx = widget_context();
    let err = plan_writes(&ts, &ctx).unwrap_err();
    match err {
        ScaffoldError::MissingVariable { name, .. } => assert_eq!(name, "missing"),
        other => panic!("unexpected error: {:?}", other),
    }
}

#[test]
fn plan_fails_on_undecodable_renderable_content() {
    let entries = vec![SourceEntry {
        path: Some(components(&["a.tera"])),
        content: vec![0xff, 0xfe, 0x00, 0xff],
    }];
    let ts = discover_template_structure(&entries, &Vec::new()).unwrap();
    let ctx = widget_context();
    let err = plan_writes(&ts, &ctx).unwrap_err();
    assert!(matches!(err, ScaffoldError::InvalidEncoding { .. }));
}

#[test]
fn validate_requires_the_destination_root() {
    let err = validate_destination(false, &Vec::new(), &Vec::new()).unwrap_err();
    assert!(matches!(err, ScaffoldError::NotFound));
}

#[test]
fn validate_reports_every_conflicting_path() {
    let entries = vec![
        SourceEntry {
            path: Some(components(&["a.tera"])),
            content: b"x".to_vec(),
        },
        SourceEntry {
            path: Some(components(&["{{name}}", "b.txt"])),
            content: b"y".to_vec(),
        },
        SourceEntry {
            path: Some(components(&["c.txt"])),
            content: b"z".to_vec(),
        },
    ];
    let ts = discover_template_structure(&entries, &Vec::new()).unwrap();
    let ctx = widget_context();
    let plan = plan_writes(&ts, &ctx).unwrap();
    assert_eq!(plan.len(), 3);
    let existing = vec![true, true, false];
    let err = validate_destination(true, &plan, &existing).unwrap_err();
    match err {
        ScaffoldError::Conflicts(list) => {
            assert_eq!(list, vec!["a".to_string(), "widget/b.txt".to_string()]);
        },
        other => panic!("unexpected error: {:?}", other),
    }
}

#[test]
fn validate_passes_on_a_clean_destination() {
    let entries = vec![SourceEntry {
        path: Some(components(&["c.txt"])),
        content: b"z".to_vec(),
    }];
    let ts = discover_template_structure(&entries, &Vec::new()).unwrap();
    let ctx = widget_context();
    let plan = plan_writes(&ts, &ctx).unwrap();
    let existing = vec![false];
    assert!(validate_destination(true, &plan, &existing).is_ok());
}

#[test]
fn process_template_file_replaces_variables() {
    let vars = vec![("name".to_string(), "N".to_string())];
    assert_eq!(process_template_file("a {{name}} b {{name}}", &vars), "a N b N");
    assert_eq!(process_template_file("no tokens", &vars), "no tokens");
    assert_eq!(process_template_file("{{unknown}} stays", &vars), "{{unknown}} stays");
}

#[test]
fn process_template_file_inserts_fresh_uids() {
    let vars: Vec<(String, String)> = Vec::new();
    let out = process_template_file("id={{generate_uid}};", &vars);
    assert!(out.starts_with("id=uid://"));
    assert!(out.ends_with(";"));
    assert_eq!(out.len(), "id=".len() + 19 + 1);
}

#[test]
fn error_kind_messages() {
    assert_eq!(
        ScaffoldError::NotFound.kind_message(),
        "destination directory does not exist"
    );
    assert_eq!(
        ScaffoldError::Conflicts(Vec::new()).kind_message(),
        "destination has conflicting files"
    );
}

#[test]
fn plan_preserves_multibyte_text_in_rendered_content() {
    let entries = vec![SourceEntry {
        path: Some(components(&["greeting.tera"])),
        content: "héllo {{ name }} — ✓".as_bytes().to_vec(),
    }];
    let ts = discover_template_structure(&entries, &Vec::new()).unwrap();
    let ctx = widget_context();
    let plan = plan_writes(&ts, &ctx).unwrap();
    assert_eq!(plan[0].dest_path, vec!["greeting".to_string()]);
    match &plan[0].content {
        WriteContent::Rendered(text) => assert_eq!(text, "héllo widget — ✓"),
        other => panic!("unexpected content: {:?}", other),
    }
}
