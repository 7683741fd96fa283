//! Configuration records and their built-in defaults, the CLI override
//! hook, and the database path rule.  Loading layered files and environment
//! variables is I/O and stays outside the library.

use vstd::prelude::*;
use vstd::string::*;
use crate::strutil::views_of;

verus! {

/// Settings of the embedding and generation backend.
#[derive(Debug, Clone)]
pub struct OllamaConfig {
    /// Base URL of the backend server.
    pub base_url: String,
    /// Model used for generating embeddings.
    pub embed_model: String,
    /// Model used for text generation in answers.
    pub generate_model: String,
    /// Request timeout in seconds.
    pub timeout_secs: u64,
}

/// Settings of the vector store.
#[derive(Debug, Clone)]
pub struct DbConfig {
    /// Name of the table that stores chunks.
    pub table_name: String,
    /// Embedding vector dimensionality; must match the model's output.
    pub embedding_dim: usize,
}

/// Settings of the indexer.
#[derive(Debug, Clone)]
pub struct IndexConfig {
    /// Largest chunk size in source lines before windowing.
    pub max_chunk_lines: usize,
    /// Extensions kept when no accept glob is given (lowercase, no dot).
    pub default_extensions: Vec<String>,
    /// Globs for paths excluded from indexing.
    pub default_excludes: Vec<String>,
}

/// The resolved application configuration.
#[derive(Debug, Clone)]
pub struct AppConfig {
    pub ollama: OllamaConfig,
    pub db: DbConfig,
    pub index: IndexConfig,
}

/// The built-in default extension list.
pub open spec fn default_extensions_spec() -> Seq<Seq<char>> {
    seq![
        "rs"@,
        "py"@,
        "js"@,
        "jsx"@,
        "ts"@,
        "tsx"@,
        "go"@,
        "java"@,
        "cs"@,
        "fs"@,
        "fsx"@,
        "scala"@,
        "hs"@,
        "rb"@,
    ]
}

/// The built-in default exclude globs: build-artifact and dependency
/// directories of the supported toolchains.
pub open spec fn default_excludes_spec() -> Seq<Seq<char>> {
    seq![
        "**/target/**"@,
        "**/node_modules/**"@,
        "**/__pycache__/**"@,
        ".venv/**"@,
        "venv/**"@,
        "env/**"@,
        "vendor/**"@,
        "dist-newstyle/**"@,
        ".stack-work/**"@,
        ".bundle/**"@,
        ".gradle/**"@,
        "**/build/**"@,
        ".sbt/**"@,
        "**/bin/Debug/**"@,
        "**/bin/Release/**"@,
        "**/obj/**"@,
    ]
}

impl Default for AppConfig {
    /// The built-in defaults: a local backend, the `chunks` table with
    /// 768-dimension embeddings, 40-line chunks, and the default extension
    /// and exclude lists.
    fn default() -> (r: Self)
        ensures
            r.ollama.base_url@ == "http://localhost:11434"@,
            r.ollama.embed_model@ == "nomic-embed-text"@,
            r.ollama.generate_model@ == "llama3.2"@,
            r.ollama.timeout_secs == 120,
            r.db.table_name@ == "chunks"@,
            r.db.embedding_dim == 768,
            r.index.max_chunk_lines == 40,
            views_of(r.index.default_extensions@) == default_extensions_spec(),
            views_of(r.index.default_excludes@) == default_excludes_spec(),
    {
        let mut exts: Vec<String> = Vec::new();
        exts.push("rs".to_owned());
        exts.push("py".to_owned());
        exts.push("js".to_owned());
        exts.push("jsx".to_owned());
        exts.push("ts".to_owned());
        exts.push("tsx".to_owned());
        exts.push("go".to_owned());
        exts.push("java".to_owned());
        exts.push("cs".to_owned());
        exts.push("fs".to_owned());
        exts.push("fsx".to_owned());
        exts.push("scala".to_owned());
        exts.push("hs".to_owned());
        exts.push("rb".to_owned());
        let mut excl: Vec<String> = Vec::new();
        excl.push("**/target/**".to_owned());
        excl.push("**/node_modules/**".to_owned());
        excl.push("**/__pycache__/**".to_owned());
        excl.push(".venv/**".to_owned());
        excl.push("venv/**".to_owned());
        excl.push("env/**".to_owned());
        excl.push("vendor/**".to_owned());
        excl.push("dist-newstyle/**".to_owned());
        excl.push(".stack-work/**".to_owned());
        excl.push(".bundle/**".to_owned());
        excl.push(".gradle/**".to_owned());
        excl.push("**/build/**".to_owned());
        excl.push(".sbt/**".to_owned());
        excl.push("**/bin/Debug/**".to_owned());
        excl.push("**/bin/Release/**".to_owned());
        excl.push("**/obj/**".to_owned());
        proof {
            assert(views_of(exts@) =~= default_extensions_spec());
            assert(views_of(excl@) =~= default_excludes_spec());
        }
        AppConfig {
            ollama: OllamaConfig {
                base_url: "http://localhost:11434".to_owned(),
                embed_model: "nomic-embed-text".to_owned(),
                generate_model: "llama3.2".to_owned(),
                timeout_secs: 120,
            },
            db: DbConfig { table_name: "chunks".to_owned(), embedding_dim: 768 },
            index: IndexConfig {
                max_chunk_lines: 40,
                default_extensions: exts,
                default_excludes: excl,
            },
        }
    }
}

/// The vector-table directory under a target directory.
pub fn db_path(target_dir: &str) -> (r: String)
    ensures
        r@ == target_dir@ + "/.maharajah/db"@,
{
    let mut s = target_dir.to_owned();
    s.append("/.maharajah/db");
    s
}

/// Apply top-level CLI flag overrides onto an already-loaded configuration:
/// each given flag replaces its field, absent flags change nothing.
pub fn apply_cli_overrides(
    config: &mut AppConfig,
    ollama_url: Option<String>,
    embed_model: Option<String>,
)
    ensures
        final(config).ollama.base_url == match ollama_url {
            Some(url) => url,
            None => old(config).ollama.base_url,
        },
        final(config).ollama.embed_model == match embed_model {
            Some(m) => m,
            None => old(config).ollama.embed_model,
        },
        final(config).ollama.generate_model == old(config).ollama.generate_model,
        final(config).ollama.timeout_secs == old(config).ollama.timeout_secs,
        final(config).db == old(config).db,
        final(config).index == old(config).index,
{
    match ollama_url {
        Some(url) => {
            config.ollama.base_url = url;
        },
        None => {},
    }
    match embed_model {
        Some(model) => {
            config.ollama.embed_model = model;
        },
        None => {},
    }
}

} // verus!
