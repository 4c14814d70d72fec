//! Connections to SurrealDB: where they lead, and how one signs in.

use crate::error::{Error, ErrorView};
use crate::settings::SurrealDBConnectionSpec;
use crate::text::{chars_of, same_text, text_of};
use vstd::prelude::*;
use vstd::string::*;

verus! {

/// The largest number of connections of a pool.
pub const MAX_POOL_SIZE: usize = 10;

/// A query that shows whether a connection is still healthy.
pub const HEALTH_QUERY: &'static str = "RETURN 1";

/// Makes the connections of a pool.
#[derive(Debug)]
pub struct Manager {
    pub dbconf: SurrealDBConnectionSpec,
}

/// How a connection is made.
#[derive(Debug)]
pub enum ConnectPlan {
    /// Connect to the url, sign in, and use the namespace and the database.
    Remote { url: String, namespace: String, database: String },
    /// Use the namespace and the database of a database in memory.
    Memory { namespace: String, database: String },
}

/// A way to connect as a mathematical value.
pub enum ConnectView {
    Remote { url: Seq<char>, namespace: Seq<char>, database: Seq<char> },
    Memory { namespace: Seq<char>, database: Seq<char> },
}

impl ConnectPlan {
    pub open spec fn view(&self) -> ConnectView {
        match self {
            ConnectPlan::Remote { url, namespace, database } => ConnectView::Remote {
                url: url@,
                namespace: namespace@,
                database: database@,
            },
            ConnectPlan::Memory { namespace, database } => ConnectView::Memory {
                namespace: namespace@,
                database: database@,
            },
        }
    }
}

/// `"://"` stands in `url` at the place `i`.
pub open spec fn has_separator_at(url: Seq<char>, i: int) -> bool {
    0 <= i && i + 3 <= url.len() && url[i] == ':' && url[i + 1] == '/' && url[i + 2] == '/'
}

/// `p` is what stands before the first `"://"` of `url`.
pub open spec fn is_protocol(url: Seq<char>, p: Seq<char>) -> bool {
    &&& has_separator_at(url, p.len() as int)
    &&& p == url.take(p.len() as int)
    &&& forall|i: int| 0 <= i < p.len() ==> !#[trigger] has_separator_at(url, i)
}

/// What stands before the first `"://"` of `url`.
pub open spec fn protocol_of(url: Seq<char>) -> Option<Seq<char>> {
    if exists|p: Seq<char>| is_protocol(url, p) {
        Some(choose|p: Seq<char>| is_protocol(url, p))
    } else {
        None
    }
}

proof fn lemma_protocol(url: Seq<char>, p: Seq<char>)
    requires
        is_protocol(url, p),
    ensures
        protocol_of(url) == Some(p),
{
    let q = choose|q: Seq<char>| is_protocol(url, q);
    assert(is_protocol(url, q));
    if p.len() < q.len() {
        assert(has_separator_at(url, p.len() as int));
    } else if q.len() < p.len() {
        assert(has_separator_at(url, q.len() as int));
    }
}

fn split_protocol(url: &str) -> (r: Option<String>)
    ensures
        match r {
            Some(p) => protocol_of(url@) == Some(p@),
            None => protocol_of(url@) is None,
        },
{
    let chars: Vec<char> = chars_of(url);
    let mut before: Vec<char> = Vec::new();
    for i in 0..chars.len()
        invariant
            chars@ == url@,
            before@ == url@.take(i as int),
            forall|j: int| 0 <= j < i ==> !#[trigger] has_separator_at(url@, j),
    {
        if chars.len() - i >= 3 && chars[i] == ':' && chars[i + 1] == '/' && chars[i + 2] == '/' {
            proof {
                assert(has_separator_at(url@, i as int));
                lemma_protocol(url@, before@);
            }
            return Some(text_of(&before));
        }
        before.push(chars[i]);
        assert(url@.take(i as int + 1) =~= url@.take(i as int).push(url@[i as int]));
    }
    assert forall|p: Seq<char>| !is_protocol(url@, p) by {
        if is_protocol(url@, p) {
            assert(has_separator_at(url@, p.len() as int));
        }
    }
    None
}

/// `s` in upper case.
pub uninterp spec fn uppercase(s: Seq<char>) -> Seq<char>;

/// Text of ASCII characters alone.
pub open spec fn all_ascii(s: Seq<char>) -> bool {
    forall|i: int| 0 <= i < s.len() ==> (#[trigger] s[i]) as u32 <= 127
}

/// The ASCII letters of `s` in upper case.
pub open spec fn ascii_uppercase(s: Seq<char>) -> Seq<char> {
    s.map_values(
        |c: char|
            if 'a' <= c && c <= 'z' {
                (c as u32 - 32) as char
            } else {
                c
            },
    )
}

/// `str::to_uppercase`: the text in upper case, as Unicode has it. Of ASCII
/// text every letter becomes its capital, and the rest stays.
#[verifier::external_body]
fn to_uppercase(s: &str) -> (out: String)
    ensures
        out@ == uppercase(s@),
        all_ascii(s@) ==> out@ == ascii_uppercase(s@),
{
    s.to_uppercase()
}

/// How a connection with the protocol `protocol`, in upper case, is made.
pub open spec fn connection(dbconf: SurrealDBConnectionSpec, protocol: Seq<char>) -> Result<
    ConnectView,
    ErrorView,
> {
    if protocol == "WS"@ || protocol == "WSS"@ {
        Ok(
            ConnectView::Remote {
                url: dbconf.url@,
                namespace: dbconf.namespace@,
                database: dbconf.database@,
            },
        )
    } else if protocol == "MEM"@ {
        Ok(ConnectView::Memory { namespace: "test"@, database: "test"@ })
    } else {
        Err(ErrorView::UnsupportedProtocol(protocol))
    }
}

/// How a connection with the protocol `protocol`, in upper case, is made.
pub fn connect_plan(dbconf: &SurrealDBConnectionSpec, protocol: &str) -> (r: Result<
    ConnectPlan,
    Error,
>)
    ensures
        match r {
            Ok(p) => connection(*dbconf, protocol@) == Ok::<ConnectView, ErrorView>(p@),
            Err(e) => connection(*dbconf, protocol@) == Err::<ConnectView, ErrorView>(e@),
        },
{
    if same_text(protocol, "WS") || same_text(protocol, "WSS") {
        Ok(
            ConnectPlan::Remote {
                url: dbconf.url.clone(),
                namespace: dbconf.namespace.clone(),
                database: dbconf.database.clone(),
            },
        )
    } else if same_text(protocol, "MEM") {
        Ok(
            ConnectPlan::Memory {
                namespace: String::from_str("test"),
                database: String::from_str("test"),
            },
        )
    } else {
        Err(Error::UnsupportedProtocol(String::from_str(protocol)))
    }
}

/// A user who signs in.
#[derive(Debug)]
pub enum SignIn {
    /// A user of one database.
    Database { username: String, password: String, namespace: String, database: String },
    /// A user of all databases.
    Root { username: String, password: String },
}

/// A user who signs in, as a mathematical value.
pub enum SignInView {
    Database {
        username: Seq<char>,
        password: Seq<char>,
        namespace: Seq<char>,
        database: Seq<char>,
    },
    Root { username: Seq<char>, password: Seq<char> },
}

impl SignIn {
    pub open spec fn view(&self) -> SignInView {
        match self {
            SignIn::Database { username, password, namespace, database } => SignInView::Database {
                username: username@,
                password: password@,
                namespace: namespace@,
                database: database@,
            },
            SignIn::Root { username, password } => SignInView::Root {
                username: username@,
                password: password@,
            },
        }
    }
}

/// The ways to sign in, in the order in which they are tried. The first that
/// succeeds counts: as a user of the database, and where that fails, as one of
/// all databases. Where both fail, so does signing in, with the last failure.
pub fn sign_ins(dbconf: &SurrealDBConnectionSpec) -> (out: Vec<SignIn>)
    ensures
        out@.len() == 2,
        out@[0]@ == (SignInView::Database {
            username: dbconf.user@,
            password: dbconf.password@,
            namespace: dbconf.namespace@,
            database: dbconf.database@,
        }),
        out@[1]@ == (SignInView::Root { username: dbconf.user@, password: dbconf.password@ }),
{
    let mut out: Vec<SignIn> = Vec::new();
    out.push(
        SignIn::Database {
            username: dbconf.user.clone(),
            password: dbconf.password.clone(),
            namespace: dbconf.namespace.clone(),
            database: dbconf.database.clone(),
        },
    );
    out.push(SignIn::Root { username: dbconf.user.clone(), password: dbconf.password.clone() });
    out
}

impl Manager {
    /// How a connection is made: as the protocol of the url says, in either
    /// case. A url without a protocol is refused.
    pub fn create(&self) -> (r: Result<ConnectPlan, Error>)
        ensures
            match protocol_of(self.dbconf.url@) {
                None => r is Err && r->Err_0@ == ErrorView::InvalidDbUrl,
                Some(p) => match r {
                    Ok(plan) => connection(self.dbconf, uppercase(p)) == Ok::<
                        ConnectView,
                        ErrorView,
                    >(plan@),
                    Err(e) => connection(self.dbconf, uppercase(p)) == Err::<
                        ConnectView,
                        ErrorView,
                    >(e@),
                },
            },
            match protocol_of(self.dbconf.url@) {
                Some(p) => all_ascii(p) ==> uppercase(p) == ascii_uppercase(p),
                None => true,
            },
    {
        match split_protocol(self.dbconf.url.as_str()) {
            None => Err(Error::InvalidDbUrl),
            Some(p) => {
                let protocol: String = to_uppercase(p.as_str());
                connect_plan(&self.dbconf, protocol.as_str())
            },
        }
    }
}

// ----------------------------------------------------------------------------- laws

/// A connection is made to the url over a WebSocket, plain or secured, in the
/// given namespace and database, or in memory to a database for tests; every
/// other protocol is refused by its name.
pub proof fn law_connections_go_where_the_url_says(
    dbconf: SurrealDBConnectionSpec,
    protocol: Seq<char>,
)
    ensures
        protocol == "WS"@ || protocol == "WSS"@ ==> connection(dbconf, protocol) == Ok::<
            ConnectView,
            ErrorView,
        >(
            ConnectView::Remote {
                url: dbconf.url@,
                namespace: dbconf.namespace@,
                database: dbconf.database@,
            },
        ),
        protocol == "MEM"@ ==> connection(dbconf, protocol) == Ok::<ConnectView, ErrorView>(
            ConnectView::Memory { namespace: "test"@, database: "test"@ },
        ),
        protocol != "WS"@ && protocol != "WSS"@ && protocol != "MEM"@ ==> connection(
            dbconf,
            protocol,
        ) == Err::<ConnectView, ErrorView>(ErrorView::UnsupportedProtocol(protocol)),
{
    reveal_strlit("WS");
    reveal_strlit("WSS");
    reveal_strlit("MEM");
    assert("MEM"@[0] == 'M');
    assert("WS"@[0] == 'W');
    assert("WSS"@[0] == 'W');
}

/// The protocol of a url is what stands before its first `"://"`; a url without
/// one has none.
pub proof fn law_the_protocol_ends_at_the_first_separator(
    protocol: Seq<char>,
    rest: Seq<char>,
    url: Seq<char>,
)
    ensures
        (forall|i: int|
            0 <= i < protocol.len() ==> !(#[trigger] (protocol + "://"@ + rest)[i] == ':' && (
            protocol + "://"@ + rest)[i + 1] == '/' && (protocol + "://"@ + rest)[i + 2] == '/'))
            ==> protocol_of(protocol + "://"@ + rest) == Some(protocol),
        protocol_of(url) is None <==> forall|i: int|
            0 <= i && i + 2 < url.len() ==> !(#[trigger] url[i] == ':' && url[i + 1] == '/' && url[i
                + 2] == '/'),
{
    reveal_strlit("://");
    let whole = protocol + "://"@ + rest;
    if forall|i: int|
        0 <= i < protocol.len() ==> !(#[trigger] whole[i] == ':' && whole[i + 1] == '/' && whole[i
            + 2] == '/') {
        assert(whole.take(protocol.len() as int) =~= protocol);
        assert(has_separator_at(whole, protocol.len() as int));
        assert(is_protocol(whole, protocol));
        lemma_protocol(whole, protocol);
    }
    if protocol_of(url) is None {
        assert forall|i: int| 0 <= i && i + 2 < url.len() implies !(#[trigger] url[i] == ':'
            && url[i + 1] == '/' && url[i + 2] == '/') by {
            if has_separator_at(url, i) {
                lemma_first_separator(url, i);
            }
        }
    } else {
        let p = protocol_of(url)->0;
        assert(is_protocol(url, p));
        assert(url[p.len() as int] == ':');
    }
}

/// A url with a separator has a first one.
proof fn lemma_first_separator(url: Seq<char>, i: int)
    requires
        has_separator_at(url, i),
    ensures
        exists|p: Seq<char>| is_protocol(url, p),
    decreases i,
{
    if exists|j: int| 0 <= j < i && #[trigger] has_separator_at(url, j) {
        let j = choose|j: int| 0 <= j < i && #[trigger] has_separator_at(url, j);
        lemma_first_separator(url, j);
    } else {
        assert(is_protocol(url, url.take(i)));
    }
}

/// A way to connect, and one to sign in, is known by its kind and by each of its
/// parts.
pub proof fn law_connections_are_known_by_their_parts(p: ConnectPlan, s: SignIn)
    ensures
        match p {
            ConnectPlan::Remote { url, namespace, database } => p@ == (ConnectView::Remote {
                url: url@,
                namespace: namespace@,
                database: database@,
            }),
            ConnectPlan::Memory { namespace, database } => p@ == (ConnectView::Memory {
                namespace: namespace@,
                database: database@,
            }),
        },
        match s {
            SignIn::Database { username, password, namespace, database } => s@ == (
            SignInView::Database {
                username: username@,
                password: password@,
                namespace: namespace@,
                database: database@,
            }),
            SignIn::Root { username, password } => s@ == (SignInView::Root {
                username: username@,
                password: password@,
            }),
        },
{
}

} // verus!
