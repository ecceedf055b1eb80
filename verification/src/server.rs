//! Game servers: their names and the texts they are started with.

use vstd::arithmetic::power::pow;
use vstd::prelude::*;
use vstd::string::*;

verus! {

/// The lower-case hexadecimal digit for `n`, which is below 16.
pub open spec fn hex_digit(n: int) -> char {
    if n < 10 {
        ((48 + n) as u8) as char
    } else {
        ((87 + n) as u8) as char
    }
}

/// The hexadecimal digit of `id` at `place`, counted from the left among its
/// 32 digits.
pub open spec fn id_digit(id: u128, place: int) -> char {
    hex_digit((id as int / pow(16, (31 - place) as nat)) % 16)
}

/// The text of an id: its 32 lower-case hexadecimal digits in groups of 8, 4,
/// 4, 4 and 12, with a hyphen between the groups.
pub open spec fn id_text(id: u128) -> Seq<char> {
    Seq::new(
        36,
        |i: int|
            if i == 8 || i == 13 || i == 18 || i == 23 {
                '-'
            } else if i < 8 {
                id_digit(id, i)
            } else if i < 13 {
                id_digit(id, i - 1)
            } else if i < 18 {
                id_digit(id, i - 2)
            } else if i < 23 {
                id_digit(id, i - 3)
            } else {
                id_digit(id, i - 4)
            },
    )
}

/// Calls `uuid::Uuid::from_u128` and `to_string` on the result. The contract
/// claims that the string is the hyphenated lower-case form of the id.
#[verifier::external_body]
fn id_to_string(id: u128) -> (text: String)
    ensures
        text@ == id_text(id),
{
    uuid::Uuid::from_u128(id).to_string()
}

/// What a server holds.
pub struct ServerView {
    pub id: u128,
    pub prefix_override: Seq<char>,
    pub user_password: Seq<char>,
    pub mod_list: Seq<char>,
    pub map_list: Seq<char>,
    pub ban_list: Seq<char>,
    pub startup: Seq<char>,
}

impl ServerView {
    /// The prefix of the server's name: the override where there is one,
    /// else `vu_`.
    pub open spec fn prefix(self) -> Seq<char> {
        if self.prefix_override.len() == 0 {
            "vu_"@
        } else {
            self.prefix_override
        }
    }

    /// The name under which the server shows: the prefix and the id.
    pub open spec fn display_name(self) -> Seq<char> {
        self.prefix() + id_text(self.id)
    }

    /// The startup text of a new battle-royale server of this name.
    pub open spec fn br_startup(self) -> Seq<char> {
        "vars.serverName \""@ + self.display_name()
            + "\" \r\nvars.friendlyFire true\r\nadmin.password \"cows\""@
    }
}

/// Representation of a vu server
#[derive(Debug)]
pub struct VuServer {
    /// The id of this server
    id: u128,
    /// The prefix that is added to the server name
    prefix_override: String,
    /// The password to the VU server for users
    user_password: String,
    /// Finalized ModList.txt
    mod_list: String,
    /// Finalized MapList.txt
    map_list: String,
    /// Finalized BanList.txt
    ban_list: String,
    /// Finalized Startup.txt
    startup: String,
}

impl View for VuServer {
    type V = ServerView;

    closed spec fn view(&self) -> ServerView {
        ServerView {
            id: self.id,
            prefix_override: self.prefix_override@,
            user_password: self.user_password@,
            mod_list: self.mod_list@,
            map_list: self.map_list@,
            ban_list: self.ban_list@,
            startup: self.startup@,
        }
    }
}

impl VuServer {
    /// A server under the given id, with the given prefix and password and
    /// with empty lists.
    pub fn new_from(id: u128, prefix_override: String, user_password: String) -> (server: VuServer)
        ensures
            server@ == (ServerView {
                id,
                prefix_override: prefix_override@,
                user_password: user_password@,
                mod_list: Seq::empty(),
                map_list: Seq::empty(),
                ban_list: Seq::empty(),
                startup: Seq::empty(),
            }),
    {
        VuServer {
            id,
            prefix_override,
            user_password,
            mod_list: String::new(),
            map_list: String::new(),
            ban_list: String::new(),
            startup: String::new(),
        }
    }

    /// get_prefix
    ///
    /// Returns the prefix that all servers will use
    pub fn get_prefix(&self) -> (prefix: String)
        ensures
            prefix@ == self@.prefix(),
    {
        if self.prefix_override.as_str().is_empty() {
            return "vu_".to_owned();
        }
        self.prefix_override.clone()
    }

    /// The id in its hyphenated form.
    pub fn get_id_as_string(&self) -> (text: String)
        ensures
            text@ == id_text(self@.id),
    {
        id_to_string(self.id)
    }

    /// The configuration text, which is empty.
    pub fn get_config(&self) -> (config: String)
        ensures
            config@ == Seq::<char>::empty(),
    {
        String::new()
    }

    /// The startup text of a new battle-royale server of this name.
    pub fn create_new_br_startup(&self) -> (startup: String)
        ensures
            startup@ == self@.br_startup(),
    {
        let mut startup = "vars.serverName \"".to_owned();
        startup.append(self.get_display_name().as_str());
        startup.append("\" \r\nvars.friendlyFire true\r\nadmin.password \"cows\"");
        startup
    }

    /// The name under which the server shows: the prefix and the id.
    pub fn get_display_name(&self) -> (name: String)
        ensures
            name@ == self@.display_name(),
    {
        let mut name = self.get_prefix();
        name.append(self.get_id_as_string().as_str());
        name
    }

    /// The password for users.
    pub fn get_user_password(&self) -> (password: String)
        ensures
            password@ == self@.user_password,
    {
        self.user_password.clone()
    }
}

} // verus!
