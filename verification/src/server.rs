//! What the server is configured with and what it answers when it cannot
//! serve a request.

use vstd::prelude::*;
use vstd::string::StringExecFns;

verus! {

/// The decimal digit that stands for `d`, for `d` below ten.
pub open spec fn digit(d: nat) -> char {
    if d == 0 {
        '0'
    } else if d == 1 {
        '1'
    } else if d == 2 {
        '2'
    } else if d == 3 {
        '3'
    } else if d == 4 {
        '4'
    } else if d == 5 {
        '5'
    } else if d == 6 {
        '6'
    } else if d == 7 {
        '7'
    } else if d == 8 {
        '8'
    } else {
        '9'
    }
}

/// `n` written in decimal, without leading zeros.
pub open spec fn decimal(n: nat) -> Seq<char>
    decreases n,
{
    if n < 10 {
        seq![digit(n)]
    } else {
        decimal(n / 10).push(digit(n % 10))
    }
}

/// The one-letter text of a decimal digit.
fn digit_text(d: u16) -> (text: &'static str)
    requires
        d < 10,
    ensures
        text@ == seq![digit(d as nat)],
{
    proof {
        reveal_strlit("0");
        reveal_strlit("1");
        reveal_strlit("2");
        reveal_strlit("3");
        reveal_strlit("4");
        reveal_strlit("5");
        reveal_strlit("6");
        reveal_strlit("7");
        reveal_strlit("8");
        reveal_strlit("9");
    }
    let text = if d == 0 {
        "0"
    } else if d == 1 {
        "1"
    } else if d == 2 {
        "2"
    } else if d == 3 {
        "3"
    } else if d == 4 {
        "4"
    } else if d == 5 {
        "5"
    } else if d == 6 {
        "6"
    } else if d == 7 {
        "7"
    } else if d == 8 {
        "8"
    } else {
        "9"
    };
    assert(text@ =~= seq![digit(d as nat)]);
    text
}

/// Writes a port number in decimal.
pub fn port_text(port: u16) -> (text: String)
    ensures
        text@ == decimal(port as nat),
    decreases port,
{
    if port < 10 {
        String::from_str(digit_text(port))
    } else {
        let mut text = port_text(port / 10);
        text.append(digit_text(port % 10));
        assert(text@ =~= decimal(port as nat));
        text
    }
}

/// How the server protects its sessions and passwords.
#[derive(Debug, PartialEq, Eq)]
pub struct SecurityConfig {
    pub identity_cookie_secret: String,
    pub hashing_iteration_count: u32,
}

/// Where the server listens, and its security settings.
#[derive(Debug, PartialEq, Eq)]
pub struct Config {
    pub ip: String,
    pub port: u16,
    pub security: SecurityConfig,
}

impl Config {
    /// The address to listen on: the ip, a colon, and the port in decimal.
    pub fn server_address(&self) -> (address: String)
        ensures
            address@ == self.ip@ + seq![':'] + decimal(self.port as nat),
    {
        proof {
            reveal_strlit(":");
        }
        let mut address = self.ip.clone();
        address.append(":");
        assert(":"@ =~= seq![':']);
        address.append(port_text(self.port).as_str());
        address
    }
}

/// An answer that only names what went wrong.
#[derive(Debug, PartialEq, Eq)]
pub struct SimpleErrorResult {
    pub error: String,
}

impl SimpleErrorResult {
    /// The answer to a login with a wrong name or password.
    pub fn login_failed() -> (answer: Self)
        ensures
            answer.error@ == "LoginFailed"@,
    {
        SimpleErrorResult { error: "LoginFailed".to_owned() }
    }

    /// The answer to a request that needs a login and has none.
    pub fn not_logged_in() -> (answer: Self)
        ensures
            answer.error@ == "NotLoggedIn"@,
    {
        SimpleErrorResult { error: "NotLoggedIn".to_owned() }
    }

    /// The answer to a request that names no route of the interface.
    pub fn api_not_specified() -> (answer: Self)
        ensures
            answer.error@ == "ApiNotSpecified"@,
    {
        SimpleErrorResult { error: "ApiNotSpecified".to_owned() }
    }
}

/// One named detail of an answer.
#[derive(Debug, PartialEq, Eq)]
pub struct Parameter {
    pub key: String,
    pub value: String,
}

/// The details of `parameters` as pairs of plain values, in the same order.
pub open spec fn parameter_views(parameters: Seq<Parameter>) -> Seq<(Seq<char>, Seq<char>)> {
    Seq::new(parameters.len(), |i: int| (parameters[i].key@, parameters[i].value@))
}

/// No two details have the same key.
pub open spec fn distinct_keys(entries: Seq<(Seq<char>, Seq<char>)>) -> bool {
    forall|i: int, j: int|
        0 <= i < j < entries.len() ==> (#[trigger] entries[i]).0 != (#[trigger] entries[j]).0
}

/// The details as a map from key to value.
pub open spec fn as_map(entries: Seq<(Seq<char>, Seq<char>)>) -> Map<Seq<char>, Seq<char>> {
    Map::new(
        |key: Seq<char>| exists|i: int| 0 <= i < entries.len() && (#[trigger] entries[i]).0 == key,
        |key: Seq<char>|
            entries[choose|i: int| 0 <= i < entries.len() && (#[trigger] entries[i]).0 == key].1,
    )
}

/// An answer that names what went wrong and gives details, each under a key
/// of its own.
#[derive(Debug, PartialEq, Eq)]
pub struct ComplicatedErrorResult {
    error: String,
    parameter: Vec<Parameter>,
}

/// A [`ComplicatedErrorResult`] as a plain value.
pub struct ComplicatedErrorView {
    pub error: Seq<char>,
    pub parameter: Map<Seq<char>, Seq<char>>,
}

impl View for ComplicatedErrorResult {
    type V = ComplicatedErrorView;

    closed spec fn view(&self) -> ComplicatedErrorView {
        ComplicatedErrorView {
            error: self.error@,
            parameter: as_map(parameter_views(self.parameter@)),
        }
    }
}

impl ComplicatedErrorResult {
    #[verifier::type_invariant]
    spec fn well_formed(self) -> bool {
        distinct_keys(parameter_views(self.parameter@))
    }

    /// An answer that names `error` and has no details yet.
    pub fn new(error: String) -> (answer: Self)
        ensures
            answer@.error == error@,
            answer@.parameter == Map::<Seq<char>, Seq<char>>::empty(),
    {
        let answer = ComplicatedErrorResult { error, parameter: Vec::new() };
        assert(answer@.parameter =~= Map::<Seq<char>, Seq<char>>::empty());
        answer
    }

    /// The answer with the detail `value` under `key`; a detail that was
    /// under that key before is replaced.
    pub fn info(self, key: String, value: String) -> (answer: Self)
        ensures
            answer@.error == self@.error,
            answer@.parameter == self@.parameter.insert(key@, value@),
    {
        proof {
            use_type_invariant(&self);
        }
        let ComplicatedErrorResult { error, parameter } = self;
        let mut parameter = parameter;
        let ghost before = parameter_views(parameter@);
        let i = match find_key(&parameter, &key) {
            Some(i) => {
                parameter.remove(i);
                parameter.insert(i, Parameter { key, value });
                i
            },
            None => {
                parameter.push(Parameter { key, value });
                (parameter.len() - 1) as usize
            },
        };
        proof {
            let after = parameter_views(parameter@);
            assert(after.len() >= before.len());
            assert forall|j: int| 0 <= j < before.len() && j != i implies #[trigger] after[j]
                == before[j] by {}
            assert(after[i as int] == (key@, value@));
            assert(i < before.len() ==> before[i as int].0 == key@);
            assert(distinct_keys(after)) by {
                assert forall|a: int, b: int| 0 <= a < b < after.len() implies (
                #[trigger] after[a]).0 != (#[trigger] after[b]).0 by {
                    if i < before.len() {
                        assert(before[a].0 != before[b].0);
                    } else if b != i {
                        assert(before[a].0 != before[b].0);
                    } else {
                        assert(before[a].0 != key@);
                    }
                }
            }
            lemma_as_map_insert(before, after, i as int, key@, value@);
        }
        ComplicatedErrorResult { error, parameter }
    }

    /// What went wrong.
    pub fn error(&self) -> (error: &String)
        ensures
            error@ == self@.error,
    {
        &self.error
    }

    /// The details, each key once.
    pub fn parameter(&self) -> (parameter: &Vec<Parameter>)
        ensures
            distinct_keys(parameter_views(parameter@)),
            as_map(parameter_views(parameter@)) == self@.parameter,
    {
        proof {
            use_type_invariant(self);
        }
        &self.parameter
    }
}

/// The place of the detail under this key.
fn find_key(parameter: &Vec<Parameter>, key: &String) -> (place: Option<usize>)
    ensures
        match place {
            Some(i) => i < parameter.len() && parameter@[i as int].key@ == key@,
            None => forall|j: int| 0 <= j < parameter.len() ==> parameter@[j].key@ != key@,
        },
{
    let mut i: usize = 0;
    while i < parameter.len()
        invariant
            i <= parameter.len(),
            forall|j: int| 0 <= j < i ==> parameter@[j].key@ != key@,
        decreases parameter.len() - i,
    {
        if parameter[i].key == *key {
            return Some(i);
        }
        i += 1;
    }
    None
}

/// Replacing the detail at place `i`, or adding one at the end, under a key
/// that occurs nowhere else, is an insertion into the map.
proof fn lemma_as_map_insert(
    before: Seq<(Seq<char>, Seq<char>)>,
    after: Seq<(Seq<char>, Seq<char>)>,
    i: int,
    key: Seq<char>,
    value: Seq<char>,
)
    requires
        distinct_keys(before),
        distinct_keys(after),
        0 <= i <= before.len(),
        i < before.len() ==> before[i].0 == key && after.len() == before.len(),
        i == before.len() ==> after.len() == before.len() + 1,
        after[i] == (key, value),
        forall|j: int| 0 <= j < before.len() && j != i ==> #[trigger] after[j] == before[j],
    ensures
        as_map(after) == as_map(before).insert(key, value),
{
    let grown = as_map(before).insert(key, value);
    assert forall|k: Seq<char>| as_map(after).dom().contains(k) == grown.dom().contains(k) by {
        if as_map(after).dom().contains(k) {
            let j = choose|j: int| 0 <= j < after.len() && (#[trigger] after[j]).0 == k;
            if j != i {
                assert(before[j].0 == k);
            }
        }
        if as_map(before).dom().contains(k) {
            let j = choose|j: int| 0 <= j < before.len() && (#[trigger] before[j]).0 == k;
            if j != i {
                assert(after[j].0 == k);
            } else {
                assert(after[i].0 == k);
            }
        }
        if k == key {
            assert(after[i].0 == k);
        }
    }
    assert forall|k: Seq<char>| as_map(after).dom().contains(k) implies as_map(after)[k]
        == grown[k] by {
        let j = choose|j: int| 0 <= j < after.len() && (#[trigger] after[j]).0 == k;
        if j == i {
            assert(k == key);
        } else {
            assert(before[j].0 == k);
            assert(k != key) by {
                if i < after.len() {
                    if j < i {
                        assert(after[j].0 != after[i].0);
                    } else {
                        assert(after[i].0 != after[j].0);
                    }
                }
            }
            let c = choose|c: int| 0 <= c < before.len() && (#[trigger] before[c]).0 == k;
            if c != j {
                if c < j {
                    assert(before[c].0 != before[j].0);
                } else {
                    assert(before[j].0 != before[c].0);
                }
            }
        }
    }
    assert(as_map(after) =~= grown);
}

/// What to answer to a request for a route that the interface does not have.
#[derive(Debug, PartialEq, Eq)]
pub enum ApiError {
    /// No route was named at all.
    NotSpecified(SimpleErrorResult),
    /// The route that was named is not defined.
    NotDefined(ComplicatedErrorResult),
}

/// The answer to a request below the interface whose route is not served:
/// when a route is named the answer names it under the key "route", and
/// when none is named, or an empty one, the answer says so.
pub fn api_error(tail: Option<&str>) -> (answer: ApiError)
    ensures
        match answer {
            ApiError::NotDefined(details) => tail matches Some(route) && route@.len() > 0
                && details@.error == "ApiNotDefined"@ && details@.parameter == Map::<
                Seq<char>,
                Seq<char>,
            >::empty().insert("route"@, route@),
            ApiError::NotSpecified(simple) => (tail is None || tail->Some_0@.len() == 0)
                && simple.error@ == "ApiNotSpecified"@,
        },
{
    match tail {
        Some(route) => {
            if !route.is_empty() {
                ApiError::NotDefined(
                    ComplicatedErrorResult::new("ApiNotDefined".to_owned()).info(
                        "route".to_owned(),
                        route.to_owned(),
                    ),
                )
            } else {
                ApiError::NotSpecified(SimpleErrorResult::api_not_specified())
            }
        },
        None => ApiError::NotSpecified(SimpleErrorResult::api_not_specified()),
    }
}

} // verus!
