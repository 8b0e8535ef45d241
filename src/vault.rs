use vstd::prelude::*;
use std::collections::BTreeMap;

verus! {

#[derive(Clone, Debug, Default)]
pub struct ConnectionConfig {
    pub endpoint: String,
    pub token: String,
}

#[derive(Clone, Debug, Default)]
pub struct Config {
    pub connection: ConnectionConfig,
}

#[derive(Debug)]
pub struct GetSecretResponse {
    pub data: Secret,
}

#[derive(Debug)]
pub struct Secret {
    pub data: BTreeMap<String, String>,
}

#[derive(Debug)]
pub struct GetTokenResponse {
    pub auth: Auth,
}

#[derive(Debug)]
pub struct Auth {
    pub client_token: String,
}

} // verus!
