use zellij_layouts::{render_layout, Layout, Watch};

fn normalize_whitespace(input: &str) -> String {
    input.split_whitespace().collect::<Vec<_>>().join(" ")
}

#[test]
fn test_render_layout() {
    let template = r#"
    layout {
        ${WATCH_PANELS}
    }
    "#;

    let layout = Layout {
        path: "test.kdl".parse().expect("valid path"),
        watch: vec![
            Watch {
                name: "Watcher".to_string(),
                command: vec!["npm".into(), "run".into(), "watch".into()],
                broadcast: false,
            },
            Watch {
                name: "Dev Server".to_string(),
                command: vec![
                    "npm".into(),
                    "run".into(),
                    "dev".into(),
                    "--host".into(),
                    "0.0.0.0".into(),
                ],
                broadcast: false,
            },
        ],
    };

    let result = render_layout(template, &layout).expect("layout to render");
    let expected = r#"
    layout {
        pane name="Watcher" command="npm" {
            args "run" "watch"
        }
        pane name="Dev Server" command="npm" {
            args "run" "dev" "--host" "0.0.0.0"
        }
    }
    "#;

    assert_eq!(
        normalize_whitespace(&result),
        normalize_whitespace(expected),
        "Rendered layout does not match expected output"
    );
}

#[test]
fn test_render_layout_with_broadcast() {
    let template = r#"
    layout {
        ${WATCH_PANELS}
    }
    "#;

    let layout = Layout {
        path: "test.kdl".parse().expect("valid path"),
        watch: vec![
            Watch {
                name: "Dev".to_string(),
                command: vec![
                    "yarn".into(),
                    "dev".into(),
                    "--host".into(),
                    "0.0.0.0".into(),
                ],
                broadcast: true,
            },
            Watch {
                name: "Lint".to_string(),
                command: vec!["yarn".into(), "watch".into()],
                broadcast: false,
            },
        ],
    };

    let result = render_layout(template, &layout).expect("layout to render");
    let expected = r#"
    layout {
        pane name="Dev" command="script" {
            args "-fec" "yarn dev --host 0.0.0.0" ".broadcast"
        }
        pane name="Lint" command="yarn" {
            args "watch"
        }
    }
    "#;

    assert_eq!(
        normalize_whitespace(&result),
        normalize_whitespace(expected),
        "Rendered layout with secure broadcast does not match expected output"
    );
}

#[test]
fn test_missing_placeholder_in_template() {
    let template = r#"
    layout {
        pane name="Placeholder Missing"
    }
    "#;

    let layout = Layout {
        path: "test.kdl".parse().expect("valid path"),
        watch: vec![Watch {
            name: "Test".to_string(),
            command: vec!["echo".into(), "Hello".into()],
            broadcast: false,
        }],
    };

    let result = render_layout(template, &layout);
    assert!(
        result.is_err(),
        "Rendering should fail due to missing placeholder"
    );
    assert_eq!(
        result.unwrap_err().to_string(),
        "The watch panel placeholder is missing!",
        "Expected error for missing placeholder"
    );
}

#[test]
fn test_commands_with_special_characters() {
    let template = r#"
    layout {
        ${WATCH_PANELS}
    }
    "#;

    let layout = Layout {
        path: "test.kdl".parse().expect("valid path"),
        watch: vec![Watch {
            name: "Special Characters".to_string(),
            command: vec![
                "echo".into(),
                "Hello World".into(),
                "\"Quoted Arg\"".into(),
                "Semi;Colon".into(),
            ],
            broadcast: false,
        }],
    };

    let result = render_layout(template, &layout).expect("layout to render");
    let expected = r#"
    layout {
        pane name="Special Characters" command="echo" {
            args "Hello' World'" "'"Quoted Arg"'" "Semi';Colon'"
        }
    }
    "#;

    assert_eq!(
        normalize_whitespace(&result),
        normalize_whitespace(expected),
        "Rendered layout does not match expected output for special characters"
    );
}

#[test]
fn test_broadcast_commands_with_complex_arguments() {
    let template = r#"
    layout {
        ${WATCH_PANELS}
    }
    "#;

    let layout = Layout {
        path: "test.kdl".parse().expect("valid path"),
        watch: vec![Watch {
            name: "Broadcast Test".to_string(),
            command: vec!["echo".into(), "Complex Arguments".into(), "Here".into()],
            broadcast: true,
        }],
    };

    let result = render_layout(template, &layout).expect("layout to render");
    let expected = r#"
    layout {
        pane name="Broadcast Test" command="script" {
            args "-fec" "echo Complex' Arguments' Here" ".broadcast"
        }
    }
    "#;

    assert_eq!(
        normalize_whitespace(&result),
        normalize_whitespace(expected),
        "Broadcast layout does not match expected output for complex arguments"
    );
}

#[test]
fn test_broadcast_commands_with_two_arguments() {
    let template = r#"
    layout {
        ${WATCH_PANELS}
    }
    "#;

    let layout = Layout {
        path: "test.kdl".parse().expect("valid path"),
        watch: vec![Watch {
            name: "Broadcast Test".to_string(),
            command: vec!["yarn".into(), "dev".into()],
            broadcast: true,
        }],
    };

    let result = render_layout(template, &layout).expect("layout to render");
    let expected = r#"
    layout {
        pane name="Broadcast Test" command="script" {
            args "-fec" "yarn dev" ".broadcast"
        }
    }
    "#;

    assert_eq!(
        normalize_whitespace(&result),
        normalize_whitespace(expected),
        "Broadcast layout does not match expected output for complex arguments"
    );
}
