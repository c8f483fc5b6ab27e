use vstd::prelude::*;

verus! {

/// Server configuration.
#[derive(Debug)]
pub struct Config {
    pub server: Server,
    pub account: Account,
    pub database: Database,
}

/// Where the server listens.
#[derive(Debug)]
pub struct Server {
    pub ip: String,
    pub loginport: u16,
    pub gameport: u16,
}

/// Settings for new accounts.
#[derive(Debug)]
pub struct Account {
    pub spawnx: String,
    pub spawny: u16,
    pub spawnz: u16,
}

/// Database connection settings.
#[derive(Debug)]
pub struct Database {
    pub host: String,
    pub port: u16,
    pub username: String,
    pub password: String,
    pub database: String,
}

} // verus!
