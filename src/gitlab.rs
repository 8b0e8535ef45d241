use vstd::prelude::*;

verus! {

#[derive(Clone, Debug, Default)]
pub struct ConnectionConfig {
    pub endpoint: String,
    pub token: String,
}

#[derive(Clone, Debug, Default)]
pub struct Author {
    pub email: String,
    pub name: String,
}

#[derive(Clone, Debug, Default)]
pub struct Config {
    pub connection: ConnectionConfig,
    pub author: Author,
    pub regex_for_name: String,
    pub regex_for_env: Option<String>,
    pub secret_path: String,
    pub image_path: String,
    pub envs_path: String,
    pub env_name_path: String,
    pub env_value_path: String,
}

/// An entry of a repository tree; `kind` is its type, a blob or a tree.
#[derive(Debug)]
pub struct RepositoryEntry {
    pub kind: String,
    pub path: String,
}

#[derive(Clone, Debug)]
pub struct Project {
    pub id: u64,
    pub name: String,
    pub web_url: String,
}

#[derive(Clone, Debug)]
pub struct FileUpdate {
    pub branch: String,
    pub commit_message: String,
    pub content: String,
    pub author_email: String,
    pub author_name: String,
}

} // verus!
