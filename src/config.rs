use vstd::prelude::*;

verus! {

/// Where the game client's API listens, and the token it accepts.
pub struct ClientConfig {
    pub port: String,
    pub token: String,
}

/// `s` begins with `p`.
pub open spec fn has_prefix(s: Seq<char>, p: Seq<char>) -> bool {
    p.len() <= s.len() && s.subrange(0, p.len() as int) == p
}

/// Relies on str::strip_prefix: the rest of `s` after `p` when `s` begins
/// with `p`, and nothing otherwise.
#[verifier::external_body]
fn strip_prefix<'a>(s: &'a str, p: &str) -> (r: Option<&'a str>)
    ensures
        r is Some <==> has_prefix(s@, p@),
        r is Some ==> r->0@ == s@.subrange(p@.len() as int, s@.len() as int),
{
    s.strip_prefix(p)
}

/// The value of the last argument of the form `<prefix><value>`.
pub open spec fn last_value(args: Seq<String>, prefix: Seq<char>) -> Option<Seq<char>>
    decreases args.len(),
{
    if args.len() == 0 {
        None
    } else if has_prefix(args.last()@, prefix) {
        Some(args.last()@.subrange(prefix.len() as int, args.last()@.len() as int))
    } else {
        last_value(args.drop_last(), prefix)
    }
}

/// The option that gives the API's port.
pub open spec fn port_option() -> Seq<char> {
    "--app-port="@
}

/// The option that gives the API's auth token.
pub open spec fn token_option() -> Seq<char> {
    "--remoting-auth-token="@
}

/// Reads the port and the auth token from the game client's command line;
/// where an option is given twice the last one counts. Nothing comes back
/// when either option is missing.
pub fn parse_client_args(args: &Vec<String>) -> (r: Option<ClientConfig>)
    ensures
        r is Some <==> last_value(args@, port_option()) is Some && last_value(
            args@,
            token_option(),
        ) is Some,
        r is Some ==> r->0.port@ == last_value(args@, port_option())->0 && r->0.token@
            == last_value(args@, token_option())->0,
{
    proof {
        reveal_strlit("--app-port=");
        reveal_strlit("--remoting-auth-token=");
    }
    let mut port: Option<String> = None;
    let mut token: Option<String> = None;
    let mut i: usize = 0;
    while i < args.len()
        invariant
            i <= args@.len(),
            port is Some == last_value(args@.take(i as int), port_option()) is Some,
            port is Some ==> port->0@ == last_value(args@.take(i as int), port_option())->0,
            token is Some == last_value(args@.take(i as int), token_option()) is Some,
            token is Some ==> token->0@ == last_value(args@.take(i as int), token_option())->0,
        decreases args@.len() - i,
    {
        proof {
            assert(args@.take(i + 1).drop_last() =~= args@.take(i as int));
            assert(args@.take(i + 1).last() == args@[i as int]);
        }
        let arg = args[i].as_str();
        match strip_prefix(arg, "--app-port=") {
            Some(value) => {
                port = Some(value.to_owned());
            },
            None => {},
        }
        match strip_prefix(arg, "--remoting-auth-token=") {
            Some(value) => {
                token = Some(value.to_owned());
            },
            None => {},
        }
        i = i + 1;
    }
    proof {
        assert(args@.take(args@.len() as int) =~= args@);
    }
    match (port, token) {
        (Some(port), Some(token)) => Some(ClientConfig { port, token }),
        _ => None,
    }
}

} // verus!
