use command_config::config::{CommandConfig, CommandDetails, CommandType, Config};
use toml::{Table, Value};

// The persisted text form: top-level key `commands`, one optional sub-table
// per context, each with `default` and a `configs` table of variants. These
// helpers build and read that shape through the serialization crate's own
// value type, so the round trip below exercises the same text format the
// application persists.

fn details_to_table(d: &CommandDetails) -> Table {
    let mut t = Table::new();
    let kind = match d.command_type {
        CommandType::Cargo => "cargo",
        CommandType::Shell => "shell",
    };
    t.insert("type".to_string(), Value::String(kind.to_string()));
    if let Some(c) = &d.command {
        t.insert("command".to_string(), Value::String(c.clone()));
    }
    if let Some(p) = &d.params {
        t.insert("params".to_string(), Value::String(p.clone()));
    }
    if let Some(env) = &d.env {
        let mut e = Table::new();
        for (k, v) in env {
            e.insert(k.clone(), Value::String(v.clone()));
        }
        t.insert("env".to_string(), Value::Table(e));
    }
    if let Some(a) = d.allow_multiple_instances {
        t.insert("allow_multiple_instances".to_string(), Value::Boolean(a));
    }
    if let Some(w) = &d.working_directory {
        t.insert("working_directory".to_string(), Value::String(w.clone()));
    }
    if let Some(p) = &d.pre_command {
        t.insert("pre_command".to_string(), Value::String(p.clone()));
    }
    t
}

fn table_to_details(t: &Table) -> CommandDetails {
    let opt_str = |key: &str| {
        t.get(key)
            .and_then(|v| v.as_str())
            .map(|s| s.to_string())
    };
    let command_type = match t.get("type").and_then(|v| v.as_str()) {
        Some("cargo") => CommandType::Cargo,
        _ => CommandType::Shell,
    };
    let env = t.get("env").and_then(|v| v.as_table()).map(|e| {
        e.iter()
            .map(|(k, v)| (k.clone(), v.as_str().unwrap_or("").to_string()))
            .collect::<Vec<(String, String)>>()
    });
    CommandDetails {
        command_type,
        command: opt_str("command"),
        params: opt_str("params"),
        env,
        allow_multiple_instances: t.get("allow_multiple_instances").and_then(|v| v.as_bool()),
        working_directory: opt_str("working_directory"),
        pre_command: opt_str("pre_command"),
    }
}

fn set_to_table(cc: &CommandConfig) -> Table {
    let mut t = Table::new();
    t.insert("default".to_string(), Value::String(cc.default.clone()));
    let mut configs = Table::new();
    for (k, d) in &cc.configs {
        configs.insert(k.clone(), Value::Table(details_to_table(d)));
    }
    t.insert("configs".to_string(), Value::Table(configs));
    t
}

fn table_to_set(t: &Table) -> CommandConfig {
    let default = t
        .get("default")
        .and_then(|v| v.as_str())
        .unwrap_or("default")
        .to_string();
    let mut cc = CommandConfig {
        default,
        configs: Vec::new(),
    };
    if let Some(configs) = t.get("configs").and_then(|v| v.as_table()) {
        for (k, v) in configs {
            if let Some(dt) = v.as_table() {
                cc.update_config(k, table_to_details(dt));
            }
        }
    }
    cc
}

fn config_to_text(config: &Config) -> String {
    let mut commands = Table::new();
    let slots = [
        ("run", &config.commands.run),
        ("test", &config.commands.test),
        ("build", &config.commands.build),
        ("bench", &config.commands.bench),
        ("script", &config.commands.script),
    ];
    for (name, slot) in slots {
        if let Some(cc) = slot {
            commands.insert(name.to_string(), Value::Table(set_to_table(cc)));
        }
    }
    let mut root = Table::new();
    root.insert("commands".to_string(), Value::Table(commands));
    toml::to_string_pretty(&Value::Table(root)).unwrap()
}

fn text_to_config(text: &str) -> Option<Config> {
    let root: Table = text.parse().ok()?;
    let commands = root.get("commands")?.as_table()?;
    let slot = |name: &str| {
        commands
            .get(name)
            .and_then(|v| v.as_table())
            .map(table_to_set)
    };
    Some(Config {
        commands: command_config::config::Commands {
            run: slot("run"),
            test: slot("test"),
            build: slot("build"),
            bench: slot("bench"),
            script: slot("script"),
        },
    })
}

fn assert_set_equivalent(a: &CommandConfig, b: &CommandConfig) {
    assert_eq!(a.default, b.default);
    assert_eq!(a.configs.len(), b.configs.len());
    for (k, d) in &a.configs {
        assert_eq!(b.get_config(k), Some(d));
    }
}

fn assert_equivalent(a: &Config, b: &Config) {
    let pairs = [
        (&a.commands.run, &b.commands.run),
        (&a.commands.test, &b.commands.test),
        (&a.commands.build, &b.commands.build),
        (&a.commands.bench, &b.commands.bench),
        (&a.commands.script, &b.commands.script),
    ];
    for (sa, sb) in pairs {
        match (sa, sb) {
            (Some(ca), Some(cb)) => assert_set_equivalent(ca, cb),
            (None, None) => {}
            _ => panic!("one side lost a variant set"),
        }
    }
}

#[test]
fn round_trip_reproduces_the_configuration() {
    let mut config = Config::default();
    let run = config.commands.run.as_mut().unwrap();
    run.update_config(
        "fast",
        CommandDetails {
            command_type: CommandType::Cargo,
            command: Some("run --release".to_string()),
            params: Some("--quiet".to_string()),
            env: Some(vec![("RUST_LOG".to_string(), "debug".to_string())]),
            allow_multiple_instances: Some(true),
            working_directory: Some("/work".to_string()),
            pre_command: None,
        },
    );
    assert_eq!(run.update_pre_command("fast", "default"), Ok(()));
    assert_eq!(run.set_default("fast"), Ok(()));

    let text = config_to_text(&config);
    let reloaded = Config::or_default(text_to_config(&text));
    assert_equivalent(&config, &reloaded);
}

#[test]
fn round_trip_keeps_empty_script_slot_absent() {
    let config = Config::default();
    let text = config_to_text(&config);
    let reloaded = Config::or_default(text_to_config(&text));
    assert!(reloaded.commands.script.is_none());
    assert_equivalent(&config, &reloaded);
}

#[test]
fn unparseable_text_yields_the_built_in_defaults() {
    let parsed = text_to_config("this is [not valid");
    assert!(parsed.is_none());
    assert_eq!(Config::or_default(parsed), Config::default());
}

#[test]
fn text_without_commands_yields_the_built_in_defaults() {
    // Parseable text of the wrong shape is also swallowed by the fail-open
    // policy rather than surfaced as an error.
    let parsed = text_to_config("whatever = 1");
    assert!(parsed.is_none());
    assert_eq!(Config::or_default(parsed), Config::default());
}
