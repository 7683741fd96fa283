//! The command-line surface as plain data.  Argument parsing itself happens
//! outside the library; these records carry the parsed values in.

use vstd::prelude::*;

verus! {

/// Arguments of the indexing command.
#[derive(Debug, Clone)]
pub struct IndexArgs {
    /// File glob patterns that force-select files (repeatable).
    pub accept: Vec<String>,
    /// File glob patterns to exclude (repeatable).
    pub exclude: Vec<String>,
    /// Largest chunk size in source lines.
    pub chunk_lines: usize,
    /// Wipe and rebuild the index from scratch.
    pub reindex: bool,
}

/// Output formats of the search commands.
#[derive(Debug, Clone, Copy, PartialEq, Eq, Structural)]
pub enum OutputFormat {
    Text,
    Json,
}

/// Arguments of the similarity-search command.
#[derive(Debug, Clone)]
pub struct FindArgs {
    /// Natural-language query to search for.
    pub prompt: String,
    /// Largest number of results to show.
    pub limit: usize,
    /// Output format.
    pub format: OutputFormat,
}

/// Arguments of the question-answering command.
#[derive(Debug, Clone)]
pub struct QueryArgs {
    /// The question to ask about the codebase.
    pub question: String,
    /// Number of code chunks to retrieve as context.
    pub top_k: usize,
    /// Override of the generation model.
    pub model: Option<String>,
    /// Print retrieved context chunks before the answer.
    pub show_context: bool,
}

/// Database maintenance actions.
#[derive(Debug, Clone, Copy, PartialEq, Eq, Structural)]
pub enum DbAction {
    /// Show index statistics.
    Stats,
    /// Remove all indexed data; requires confirmation.
    Clear { yes: bool },
}

/// Arguments of the database command.
#[derive(Debug, Clone)]
pub struct DbArgs {
    pub action: DbAction,
}

/// The subcommands.
#[derive(Debug, Clone)]
pub enum Commands {
    /// Index source files into the vector database.
    Index(IndexArgs),
    /// Ask a question about the codebase.
    Query(QueryArgs),
    /// Find relevant code chunks by semantic similarity.
    Find(FindArgs),
    /// Manage the vector database.
    Db(DbArgs),
    /// Print the resolved configuration and exit.
    Config,
}

/// The full command line.
#[derive(Debug, Clone)]
pub struct Cli {
    /// Path to a TOML configuration file.
    pub config: Option<String>,
    /// Override of the backend base URL.
    pub ollama_url: Option<String>,
    /// Override of the embedding model name.
    pub embed_model: Option<String>,
    /// Target project directory.
    pub target_dir: Option<String>,
    /// Verbosity, as the count of repeated flags.
    pub verbose: u8,
    /// The selected subcommand.
    pub command: Commands,
}

} // verus!
