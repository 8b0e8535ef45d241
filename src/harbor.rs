use vstd::prelude::*;

verus! {

#[derive(Clone, Debug, Default)]
pub struct ConnectionConfig {
    pub endpoint: String,
    pub username: Option<String>,
    pub password: Option<String>,
    pub token: Option<String>,
}

#[derive(Clone, Debug, Default)]
pub struct Config {
    pub connection: ConnectionConfig,
    pub project_name: String,
    pub project_id: u64,
}

#[derive(Debug)]
pub struct Repository {
    pub id: u64,
    pub name: String,
    pub artifact_count: u64,
    pub pull_count: u64,
}

/// An image in the registry; `push_time` is in seconds since the Unix epoch.
#[derive(Clone, Debug)]
pub struct Artifact {
    pub repository_name: String,
    pub push_time: i64,
    pub tags: Vec<Tag>,
}

#[derive(Clone, Debug)]
pub struct Tag {
    pub name: String,
}

} // verus!
