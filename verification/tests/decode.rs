use clap_bash::config::{
    get_arg_config, get_subcommand_config, ArgConfig, CommandConfig, EnvVar, EnvVarConfig,
};
use clap_bash::document::Config;
use clap_bash::error::ConfigError;
use clap_bash::json::{find_member, Json};

fn text(value: &str) -> Json {
    Json::Str(value.to_string())
}

fn object(members: Vec<(&str, Json)>) -> Json {
    Json::Object(members.into_iter().map(|(key, value)| (key.to_string(), value)).collect())
}

fn list(items: Vec<Json>) -> Json {
    Json::Array(items)
}

fn leaf(executable: Option<&str>) -> CommandConfig {
    CommandConfig {
        executable: executable.map(|path| path.to_string()),
        args: Vec::new(),
        subcommands: Vec::new(),
    }
}

fn full(name: &str, value_delimiter: &str, occurrence_delimiter: &str) -> EnvVar {
    EnvVar::Full(EnvVarConfig {
        name: name.to_string(),
        value_delimiter: value_delimiter.to_string(),
        occurrence_delimiter: occurrence_delimiter.to_string(),
    })
}

#[test]
fn empty_object_gives_empty_instructions() {
    assert_eq!(CommandConfig::from_json(&object(vec![])), Ok(leaf(None)));
}

#[test]
fn executable_is_read_from_a_string() {
    let node = object(vec![("executable", text("/bin/tool"))]);
    assert_eq!(CommandConfig::from_json(&node), Ok(leaf(Some("/bin/tool"))));
}

#[test]
fn executable_that_is_null_counts_as_missing() {
    let node = object(vec![("executable", Json::Null)]);
    assert_eq!(CommandConfig::from_json(&node), Ok(leaf(None)));
}

#[test]
fn executable_of_another_shape_is_refused() {
    for bad in [Json::Bool(true), Json::Number("1".to_string()), list(vec![]), object(vec![])] {
        let node = object(vec![("executable", bad)]);
        assert_eq!(CommandConfig::from_json(&node), Err(ConfigError::BadExecutable));
    }
}

#[test]
fn instructions_that_are_no_object_are_refused() {
    for bad in [Json::Null, text("x"), list(vec![])] {
        assert_eq!(CommandConfig::from_json(&bad), Err(ConfigError::NotAnObject));
        assert_eq!(ArgConfig::from_json(&bad), Err(ConfigError::NotAnObject));
    }
}

#[test]
fn unknown_members_are_passed_over() {
    let node = object(vec![("about", text("x")), ("executable", text("/bin/x")), ("env_var", text("E"))]);
    assert_eq!(CommandConfig::from_json(&node), Ok(leaf(Some("/bin/x"))));
}

#[test]
fn arguments_are_read_in_order() {
    let node = object(vec![(
        "args",
        list(vec![
            object(vec![("count", object(vec![("env_var", text("COUNT"))]))]),
            object(vec![("tag", object(vec![]))]),
            object(vec![(
                "filter",
                object(vec![(
                    "env_var",
                    object(vec![("name", text("FILTER")), ("value_delimiter", text("+"))]),
                )]),
            )]),
        ]),
    )]);
    let config = CommandConfig::from_json(&node).unwrap();
    assert_eq!(
        config.args,
        vec![
            ("count".to_string(), ArgConfig { env_var: Some(EnvVar::Simple("COUNT".to_string())) }),
            ("tag".to_string(), ArgConfig { env_var: None }),
            ("filter".to_string(), ArgConfig { env_var: Some(full("FILTER", "+", ",")) }),
        ]
    );
}

#[test]
fn env_var_object_takes_both_delimiters() {
    let node = object(vec![(
        "env_var",
        object(vec![
            ("occurrence_delimiter", text("|")),
            ("value_delimiter", text(":")),
            ("name", text("N")),
        ]),
    )]);
    assert_eq!(ArgConfig::from_json(&node), Ok(ArgConfig { env_var: Some(full("N", ":", "|")) }));
}

#[test]
fn env_var_object_without_delimiters_gets_the_defaults() {
    let node = object(vec![("env_var", object(vec![("name", text("N"))]))]);
    assert_eq!(ArgConfig::from_json(&node), Ok(ArgConfig { env_var: Some(full("N", ";", ",")) }));
}

#[test]
fn env_var_that_is_null_counts_as_missing() {
    let node = object(vec![("env_var", Json::Null)]);
    assert_eq!(ArgConfig::from_json(&node), Ok(ArgConfig { env_var: None }));
}

#[test]
fn env_var_of_a_wrong_shape_is_refused() {
    let bad = vec![
        Json::Bool(true),
        Json::Number("3".to_string()),
        list(vec![text("N")]),
        object(vec![]),
        object(vec![("name", Json::Null)]),
        object(vec![("name", text("N")), ("value_delimiter", Json::Null)]),
        object(vec![("name", text("N")), ("occurrence_delimiter", Json::Number("1".to_string()))]),
    ];
    for env_var in bad {
        let node = object(vec![("env_var", env_var)]);
        assert_eq!(ArgConfig::from_json(&node), Err(ConfigError::BadEnvVar));
    }
}

#[test]
fn args_that_are_no_array_are_refused_by_the_reader() {
    for bad in [Json::Null, object(vec![]), text("x")] {
        let node = object(vec![("args", bad.clone())]);
        assert_eq!(CommandConfig::from_json(&node), Err(ConfigError::NotAnArray));
        let node = object(vec![("subcommands", bad)]);
        assert_eq!(CommandConfig::from_json(&node), Err(ConfigError::NotAnArray));
    }
}

#[test]
fn element_with_two_names_is_refused_by_the_reader() {
    let two = object(vec![("a", object(vec![])), ("b", object(vec![]))]);
    let node = object(vec![("args", list(vec![two.clone()]))]);
    assert_eq!(CommandConfig::from_json(&node), Err(ConfigError::NotSingleKey));
    let node = object(vec![("subcommands", list(vec![two, text("x")]))]);
    assert_eq!(CommandConfig::from_json(&node), Err(ConfigError::NotSingleKey));
}

#[test]
fn first_reason_is_reported_in_the_order_executable_args_subcommands() {
    let node = object(vec![
        ("subcommands", Json::Null),
        ("args", list(vec![object(vec![("a", object(vec![("env_var", Json::Bool(false))]))])])),
        ("executable", Json::Bool(true)),
    ]);
    assert_eq!(CommandConfig::from_json(&node), Err(ConfigError::BadExecutable));
    let node = object(vec![
        ("subcommands", Json::Null),
        ("args", list(vec![object(vec![("a", object(vec![("env_var", Json::Bool(false))]))])])),
    ]);
    assert_eq!(CommandConfig::from_json(&node), Err(ConfigError::BadEnvVar));
}

#[test]
fn subcommands_are_read_on_every_level() {
    let node = object(vec![
        ("executable", text("/bin/root")),
        (
            "subcommands",
            list(vec![
                object(vec![("build", object(vec![]))]),
                object(vec![(
                    "test",
                    object(vec![
                        ("executable", text("/bin/test")),
                        ("subcommands", list(vec![object(vec![("unit", object(vec![("executable", text("/bin/unit"))]))])])),
                    ]),
                )]),
            ]),
        ),
    ]);
    let config = CommandConfig::from_json(&node).unwrap();
    assert_eq!(
        config,
        CommandConfig {
            executable: Some("/bin/root".to_string()),
            args: Vec::new(),
            subcommands: vec![
                ("build".to_string(), leaf(None)),
                (
                    "test".to_string(),
                    CommandConfig {
                        executable: Some("/bin/test".to_string()),
                        args: Vec::new(),
                        subcommands: vec![("unit".to_string(), leaf(Some("/bin/unit")))],
                    },
                ),
            ],
        }
    );
    assert_eq!(config.clone(), config);
}

#[test]
fn defect_in_a_subcommand_is_reported() {
    let node = object(vec![(
        "subcommands",
        list(vec![
            object(vec![("build", object(vec![]))]),
            object(vec![("test", object(vec![("executable", list(vec![]))]))]),
        ]),
    )]);
    assert_eq!(CommandConfig::from_json(&node), Err(ConfigError::BadExecutable));
}

#[test]
fn lookups_find_the_first_entry_of_a_name() {
    let config = CommandConfig {
        executable: None,
        args: vec![
            ("a".to_string(), ArgConfig { env_var: Some(EnvVar::Simple("FIRST".to_string())) }),
            ("b".to_string(), ArgConfig { env_var: None }),
            ("a".to_string(), ArgConfig { env_var: Some(EnvVar::Simple("SECOND".to_string())) }),
        ],
        subcommands: vec![
            ("x".to_string(), leaf(Some("/bin/x1"))),
            ("y".to_string(), leaf(Some("/bin/y"))),
            ("x".to_string(), leaf(Some("/bin/x2"))),
        ],
    };
    assert_eq!(
        get_arg_config(&config, "a"),
        Some(&ArgConfig { env_var: Some(EnvVar::Simple("FIRST".to_string())) })
    );
    assert_eq!(get_arg_config(&config, "b"), Some(&ArgConfig { env_var: None }));
    assert_eq!(get_arg_config(&config, "c"), None);
    assert_eq!(get_arg_config(&config, ""), None);
    assert_eq!(get_subcommand_config(&config, "x"), Some(&leaf(Some("/bin/x1"))));
    assert_eq!(get_subcommand_config(&config, "y"), Some(&leaf(Some("/bin/y"))));
    assert_eq!(get_subcommand_config(&config, "z"), None);
    assert_eq!(get_subcommand_config(&leaf(None), "x"), None);
}

#[test]
fn find_member_gives_the_first_place_of_a_key() {
    let members = vec![
        ("a".to_string(), Json::Null),
        ("b".to_string(), Json::Bool(true)),
        ("a".to_string(), Json::Bool(false)),
    ];
    assert_eq!(find_member(&members, "a"), Some(0));
    assert_eq!(find_member(&members, "b"), Some(1));
    assert_eq!(find_member(&members, "c"), None);
    assert_eq!(find_member(&Vec::new(), "a"), None);
}

#[test]
fn document_gives_grammar_and_instructions() {
    let document = object(vec![
        ("name", text("tool")),
        ("executable", text("/bin/tool")),
        ("args", list(vec![object(vec![("count", object(vec![("long", text("count")), ("env_var", text("COUNT"))]))])])),
        ("subcommands", list(vec![object(vec![("build", object(vec![("about", text("b"))]))])])),
    ]);
    let config = Config::from_document(document).unwrap();
    assert_eq!(
        config.grammar,
        object(vec![
            ("name", text("tool")),
            ("args", list(vec![object(vec![("count", object(vec![("long", text("count"))]))])])),
            ("subcommands", list(vec![object(vec![("build", object(vec![("about", text("b"))]))])])),
        ])
    );
    assert_eq!(
        config.command_config,
        CommandConfig {
            executable: Some("/bin/tool".to_string()),
            args: vec![(
                "count".to_string(),
                ArgConfig { env_var: Some(EnvVar::Simple("COUNT".to_string())) }
            )],
            subcommands: vec![("build".to_string(), leaf(None))],
        }
    );
    assert!(get_subcommand_config(&config.command_config, "build").is_some());
}

#[test]
fn document_with_a_defect_gives_that_defect() {
    assert_eq!(Config::from_document(Json::Null), Err(ConfigError::NotAnObject));
    let document = object(vec![("args", text("x")), ("executable", Json::Bool(true))]);
    assert_eq!(Config::from_document(document), Err(ConfigError::NotAnArray));
    let document = object(vec![("executable", Json::Bool(true))]);
    assert_eq!(Config::from_document(document), Err(ConfigError::BadExecutable));
    let document = object(vec![(
        "args",
        list(vec![object(vec![("a", object(vec![("env_var", list(vec![]))]))])]),
    )]);
    assert_eq!(Config::from_document(document), Err(ConfigError::BadEnvVar));
}
