use bitcoin_bench::cli::{Cli, Commands, GraphCommands};

fn base_cli() -> Cli {
    Cli {
        config_file: None,
        bench_data_dir: "/bench".to_string(),
        bench_db_name: "db.sqlite".to_string(),
        bitcoin_data_dir: Some("/tmp/d".to_string()),
        command: Some(Commands::Graph(GraphCommands::Generate {})),
    }
}

#[test]
fn missing_config_file_defaults_to_the_working_directory() {
    let mut cli = base_cli();
    cli.resolve_config_file("/home/user/project");
    assert_eq!(cli.config_file.as_deref(), Some("/home/user/project/config.toml"));
}

#[test]
fn named_config_file_is_kept() {
    let mut cli = base_cli();
    cli.config_file = Some("/etc/bench.toml".to_string());
    cli.resolve_config_file("/home/user/project");
    assert_eq!(cli.config_file.as_deref(), Some("/etc/bench.toml"));
}
