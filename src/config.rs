//! The configuration of one run.
use vstd::prelude::*;
use vstd::string::*;

verus! {

/// The character of a decimal digit.
pub open spec fn digit_char(d: nat) -> char
    recommends
        d < 10,
{
    if d == 0 {
        '0'
    } else if d == 1 {
        '1'
    } else if d == 2 {
        '2'
    } else if d == 3 {
        '3'
    } else if d == 4 {
        '4'
    } else if d == 5 {
        '5'
    } else if d == 6 {
        '6'
    } else if d == 7 {
        '7'
    } else if d == 8 {
        '8'
    } else {
        '9'
    }
}

/// The decimal rendering of a natural number, without leading zeros.
pub open spec fn decimal(n: nat) -> Seq<char>
    decreases n,
{
    if n < 10 {
        seq![digit_char(n)]
    } else {
        decimal(n / 10).push(digit_char(n % 10))
    }
}

/// The connection URI of a run, without its password.
pub open spec fn uri_of(user: Seq<char>, host: Seq<char>, port: u16) -> Seq<char> {
    "postgres://"@ + user + "@"@ + host + ":"@ + decimal(port as nat)
}

/// The path of a file under a directory.
pub open spec fn path_of(dir: Seq<char>, file: Seq<char>) -> Seq<char> {
    dir + "/"@ + file
}

fn digit_str(d: u16) -> (r: &'static str)
    requires
        d < 10,
    ensures
        r@ == seq![digit_char(d as nat)],
{
    proof {
        reveal_strlit("0");
        reveal_strlit("1");
        reveal_strlit("2");
        reveal_strlit("3");
        reveal_strlit("4");
        reveal_strlit("5");
        reveal_strlit("6");
        reveal_strlit("7");
        reveal_strlit("8");
        reveal_strlit("9");
    }
    if d == 0 {
        "0"
    } else if d == 1 {
        "1"
    } else if d == 2 {
        "2"
    } else if d == 3 {
        "3"
    } else if d == 4 {
        "4"
    } else if d == 5 {
        "5"
    } else if d == 6 {
        "6"
    } else if d == 7 {
        "7"
    } else if d == 8 {
        "8"
    } else {
        "9"
    }
}

/// Appends the decimal rendering of `n` to `s`.
pub fn push_decimal(s: &mut String, n: u16)
    ensures
        final(s)@ == old(s)@ + decimal(n as nat),
    decreases n,
{
    if n >= 10 {
        push_decimal(s, n / 10);
        s.append(digit_str(n % 10));
    } else {
        s.append(digit_str(n));
    }
}

/// What a run is told by its caller: where the server is, how to reach it,
/// where the SQL files are, and how failures are treated.
pub struct SchematoConfig {
    pub db_name: String,
    pub db_host: String,
    pub db_port: u16,
    pub db_user: String,
    pub db_pass: Option<String>,
    pub prefix: String,
    pub attempts: u32,
    pub backoff: u64,
    pub force: bool,
}

impl SchematoConfig {
    /// The server's URI, as shown to the operator: user, host and port, and
    /// never the password.
    pub fn uri_safe(&self) -> (r: String)
        ensures
            r@ == uri_of(self.db_user@, self.db_host@, self.db_port),
    {
        proof {
            reveal_strlit("postgres://");
            reveal_strlit("@");
            reveal_strlit(":");
        }
        let mut r = String::from_str("postgres://");
        r.append(self.db_user.as_str());
        r.append("@");
        r.append(self.db_host.as_str());
        r.append(":");
        push_decimal(&mut r, self.db_port);
        assert(r@ =~= uri_of(self.db_user@, self.db_host@, self.db_port));
        r
    }

    /// The path of a migration file under the schema directory.
    pub fn file_path(&self, filename: &str) -> (r: String)
        ensures
            r@ == path_of(self.prefix@, filename@),
    {
        let mut r = self.prefix.clone();
        r.append("/");
        r.append(filename);
        r
    }

    /// The database that a connection selects: none for the administrative
    /// connection, the target database otherwise.
    pub fn database_for(&self, admin: bool) -> (r: String)
        ensures
            admin ==> r@ == Seq::<char>::empty(),
            !admin ==> r@ == self.db_name@,
    {
        if admin {
            String::new()
        } else {
            self.db_name.clone()
        }
    }
}

} // verus!
