//! Configuration consumed by the authentication core and its collaborators.
//!
//! Only plain settings live here; loading them from files or the process
//! environment is the embedding application's concern.

use vstd::prelude::*;

verus! {

/// Settings of the token codec: the shared signing secret, the optional
/// subject and audience claims, and the lifetime in seconds of each token
/// kind (`time` for access tokens, `refresh_time` for refresh tokens).
pub struct Jwt {
    pub secret: String,
    pub subject: Option<String>,
    pub audience: Option<String>,
    pub time: u64,
    pub refresh_time: u64,
}

/// The mathematical value of a [`Jwt`] configuration.
pub struct JwtView {
    pub secret: Seq<char>,
    pub subject: Option<Seq<char>>,
    pub audience: Option<Seq<char>>,
    pub time: u64,
    pub refresh_time: u64,
}

impl View for Jwt {
    type V = JwtView;

    open spec fn view(&self) -> JwtView {
        JwtView {
            secret: self.secret@,
            subject: match self.subject {
                Some(ref s) => Some(s@),
                None => None,
            },
            audience: match self.audience {
                Some(ref a) => Some(a@),
                None => None,
            },
            time: self.time,
            refresh_time: self.refresh_time,
        }
    }
}

impl Default for Jwt {
    /// An empty secret, no subject or audience, a 15 minute access token
    /// and a 7 day refresh token.
    fn default() -> (r: Jwt)
        ensures
            r@.secret == Seq::<char>::empty(),
            r@.subject is None,
            r@.audience is None,
            r@.time == 900,
            r@.refresh_time == 604800,
    {
        Jwt {
            secret: String::new(),
            subject: None,
            audience: None,
            time: 15 * 60,
            refresh_time: 7 * 24 * 60 * 60,
        }
    }
}

/// Bounds on the length of user-supplied request fields.
pub struct Validation {
    pub min_length: usize,
    pub max_length: usize,
}

impl Default for Validation {
    fn default() -> (r: Validation)
        ensures
            r.min_length == 4,
            r.max_length == 32,
    {
        Validation { min_length: 4, max_length: 32 }
    }
}

/// The length bounds that request validation applies to string fields.
pub fn field_length(cfg: &Validation) -> (r: (usize, usize))
    ensures
        r.0 == cfg.min_length,
        r.1 == cfg.max_length,
{
    (cfg.min_length, cfg.max_length)
}

/// Connection settings of the database collaborator.
pub struct Database {
    pub host: String,
    pub user: String,
    pub password: String,
    pub database: String,
    pub connections: u32,
}

impl Default for Database {
    fn default() -> (r: Database)
        ensures
            r.host@ == "localhost"@,
            r.user@ == Seq::<char>::empty(),
            r.password@ == Seq::<char>::empty(),
            r.database@ == "delirium"@,
            r.connections == 10,
    {
        Database {
            host: "localhost".to_owned(),
            user: String::new(),
            password: String::new(),
            database: "delirium".to_owned(),
            connections: 10,
        }
    }
}

/// Account limits.
pub struct Account {
    pub max_characters: u32,
}

impl Default for Account {
    fn default() -> (r: Account)
        ensures
            r.max_characters == 10,
    {
        Account { max_characters: 10 }
    }
}

/// Character rules.
pub struct Character {
    pub insta_delete_below: i32,
    pub new: NewCharacter,
}

impl Default for Character {
    fn default() -> (r: Character)
        ensures
            r.insta_delete_below == 10,
            r.new.health == 200,
    {
        Character { insta_delete_below: 10, new: NewCharacter::default() }
    }
}

/// Starting state of a newly created character.
pub struct NewCharacter {
    pub health: u32,
    pub mana: u32,
    pub soul: u32,
    pub cap: u32,
    pub town: u32,
    pub pos_x: u32,
    pub pos_y: u32,
    pub pos_z: u32,
    pub vocations: std::collections::HashMap<u32, NewVocation>,
}

impl Default for NewCharacter {
    fn default() -> (r: NewCharacter)
        ensures
            r.health == 200,
            r.mana == 0,
            r.soul == 100,
            r.cap == 420,
            r.town == 1,
            r.pos_x == 1000,
            r.pos_y == 1000,
            r.pos_z == 7,
    {
        NewCharacter {
            health: 200,
            mana: 0,
            soul: 100,
            cap: 420,
            town: 1,
            pos_x: 1000,
            pos_y: 1000,
            pos_z: 7,
            vocations: std::collections::HashMap::new(),
        }
    }
}

/// Starting vocation and look of a newly created character.
pub struct NewVocation {
    pub vocation: u32,
    pub looktype: u32,
}

impl Default for NewVocation {
    fn default() -> (r: NewVocation)
        ensures
            r.vocation == 0,
            r.looktype == 100,
    {
        NewVocation { vocation: 0, looktype: 100 }
    }
}

/// Diagnostics settings.
pub struct Debug {
    pub log: Log,
    pub swagger: bool,
}

impl Default for Debug {
    fn default() -> (r: Debug)
        ensures
            r.log is Warn,
            !r.swagger,
    {
        Debug { log: Log::Warn, swagger: false }
    }
}

/// Log severity threshold.
#[derive(Clone, Copy, PartialEq, Eq, Structural)]
pub enum Log {
    Error,
    Warn,
    Info,
    Debug,
    Trace,
}

} // verus!
