use vstd::prelude::*;
use vstd::string::*;

verus! {

/// The command line as the outer argument parser hands it over: paths
/// as plain strings, with the defaults already applied except for the
/// configuration file.
#[derive(Debug)]
pub struct Cli {
    pub config_file: Option<String>,
    pub bench_data_dir: String,
    pub bench_db_name: String,
    pub bitcoin_data_dir: Option<String>,
    pub command: Option<Commands>,
}

#[derive(Debug)]
pub enum Commands {
    Bench(BenchCommands),
    Graph(GraphCommands),
}

#[derive(Debug)]
pub enum BenchCommands {
    Run { run_command: RunCommands },
}

#[derive(Debug)]
pub enum RunCommands {
    Once { src_dir: String, commit: String },
    Daily { src_dir: String, start: String, end: String },
}

#[derive(Debug)]
pub enum GraphCommands {
    Generate {},
}

impl Cli {
    /// Fill in the configuration-file default: `config.toml` in the
    /// given working directory, used only when none was named.
    pub fn resolve_config_file(&mut self, cwd: &str)
        ensures
            final(self).bench_data_dir == old(self).bench_data_dir,
            final(self).bench_db_name == old(self).bench_db_name,
            final(self).bitcoin_data_dir == old(self).bitcoin_data_dir,
            final(self).command == old(self).command,
            match old(self).config_file {
                Some(_) => final(self).config_file == old(self).config_file,
                None => final(self).config_file is Some && final(self).config_file->0@ == cwd@
                    + "/config.toml"@,
            },
    {
        let missing = match &self.config_file {
            Some(_) => false,
            None => true,
        };
        if missing {
            let mut path = String::from_str(cwd);
            path.append("/config.toml");
            self.config_file = Some(path);
        }
    }
}

} // verus!
