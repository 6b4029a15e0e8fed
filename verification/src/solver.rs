//! The conversation with the JavaScript challenge solver.
//!
//! The solver is given the player script and the `n` and signature
//! challenges to decrypt as one JSON document; it answers with a JSON
//! document that holds one response per request. Running it is the
//! caller's business: this module writes the request and reads the answer.

use vstd::prelude::*;
use crate::json::{as_array, as_object, as_str, field, is_text, json_parse, parse_json, Json};
use crate::text::{append, chars_of, join, lemma_join_push, same, string_of, trim, trim_exec};

verus! {

// ---------------------------------------------------------------------
// Decrypted values
// ---------------------------------------------------------------------

/// The map that a sequence of insertions builds, later ones winning.
pub open spec fn map_of(entries: Seq<(String, String)>) -> Map<Seq<char>, Seq<char>>
    decreases entries.len(),
{
    if entries.len() == 0 {
        Map::empty()
    } else {
        map_of(entries.drop_last()).insert(entries.last().0@, entries.last().1@)
    }
}

/// Decrypted values, each under the challenge it answers.
pub struct ChallengeMap {
    entries: Vec<(String, String)>,
}

impl View for ChallengeMap {
    type V = Map<Seq<char>, Seq<char>>;

    closed spec fn view(&self) -> Map<Seq<char>, Seq<char>> {
        map_of(self.entries@)
    }
}

proof fn lemma_map_of_other_key(entries: Seq<(String, String)>, key: Seq<char>)
    requires
        entries.len() > 0,
        entries.last().0@ != key,
    ensures
        map_of(entries).contains_key(key) == map_of(entries.drop_last()).contains_key(key),
        map_of(entries).contains_key(key) ==> map_of(entries)[key] == map_of(
            entries.drop_last(),
        )[key],
{
}

impl ChallengeMap {
    /// An empty map.
    pub fn new() -> (r: ChallengeMap)
        ensures
            r@ == Map::<Seq<char>, Seq<char>>::empty(),
    {
        ChallengeMap { entries: Vec::new() }
    }

    /// Records `value` as the answer to `key`, replacing any earlier one.
    pub fn insert(&mut self, key: String, value: String)
        ensures
            final(self)@ == old(self)@.insert(key@, value@),
    {
        let ghost before = self.entries@;
        self.entries.push((key, value));
        assert(self.entries@.drop_last() =~= before);
    }

    /// The answer recorded for `key`.
    pub fn get(&self, key: &str) -> (r: Option<&String>)
        ensures
            match r {
                Some(v) => self@.contains_key(key@) && self@[key@] == v@,
                None => !self@.contains_key(key@),
            },
    {
        let k = chars_of(key);
        let mut j: usize = self.entries.len();
        assert(self.entries@.take(j as int) =~= self.entries@);
        while j > 0
            invariant
                j <= self.entries.len(),
                k@ == key@,
                self@.contains_key(key@) == map_of(self.entries@.take(j as int)).contains_key(
                    key@,
                ),
                self@.contains_key(key@) ==> self@[key@] == map_of(
                    self.entries@.take(j as int),
                )[key@],
            decreases j,
        {
            let name = chars_of(self.entries[j - 1].0.as_str());
            proof {
                let t = self.entries@.take(j as int);
                assert(t.drop_last() =~= self.entries@.take(j - 1));
                assert(t.last() == self.entries@[j - 1]);
            }
            if same(&name, &k) {
                return Some(&self.entries[j - 1].1);
            }
            proof {
                lemma_map_of_other_key(self.entries@.take(j as int), key@);
            }
            j = j - 1;
        }
        proof {
            assert(self.entries@.take(0) =~= Seq::<(String, String)>::empty());
        }
        None
    }
}

/// What a lookup gives after an insertion: the value just recorded under
/// its key, and under any other key what was there before.
pub proof fn lemma_insert_then_get(map: ChallengeMap, key: String, value: String, other: Seq<char>)
    ensures
        ({
            let after = map@.insert(key@, value@);
            &&& after.contains_key(key@)
            &&& after[key@] == value@
            &&& other != key@ ==> after.contains_key(other) == map@.contains_key(other)
            &&& other != key@ && map@.contains_key(other) ==> after[other] == map@[other]
        }),
{
}

/// What the solver gave back: decrypted `n` values and signatures.
pub struct SolverResult {
    /// Decrypted `n` value by original `n` value.
    pub n_values: ChallengeMap,
    /// Decrypted signature by original signature.
    pub sig_values: ChallengeMap,
}

impl SolverResult {
    /// A result with nothing decrypted.
    pub fn empty() -> (r: SolverResult)
        ensures
            r.n_values@ == Map::<Seq<char>, Seq<char>>::empty(),
            r.sig_values@ == Map::<Seq<char>, Seq<char>>::empty(),
    {
        SolverResult { n_values: ChallengeMap::new(), sig_values: ChallengeMap::new() }
    }

    /// The decrypted form of the `n` value `token`, if the solver gave one.
    pub fn decrypted_n(&self, token: &str) -> (r: Option<String>)
        ensures
            match r {
                Some(v) => self.n_values@.contains_key(token@) && self.n_values@[token@] == v@,
                None => !self.n_values@.contains_key(token@),
            },
    {
        match self.n_values.get(token) {
            Some(v) => Some(string_of(chars_of(v.as_str()))),
            None => None,
        }
    }

    /// The decrypted form of the signature `token`, if the solver gave one.
    pub fn decrypted_sig(&self, token: &str) -> (r: Option<String>)
        ensures
            match r {
                Some(v) => self.sig_values@.contains_key(token@) && self.sig_values@[token@] == v@,
                None => !self.sig_values@.contains_key(token@),
            },
    {
        match self.sig_values.get(token) {
            Some(v) => Some(string_of(chars_of(v.as_str()))),
            None => None,
        }
    }

    /// The `n` value to use for `token`: its decryption when the solver gave
    /// one, else `token` itself; and whether it gave one.
    pub fn n_value_or_token(&self, token: &str) -> (r: (String, bool))
        ensures
            r.1 == self.n_values@.contains_key(token@),
            r.0@ == if r.1 {
                self.n_values@[token@]
            } else {
                token@
            },
    {
        match self.n_values.get(token) {
            Some(v) => (string_of(chars_of(v.as_str())), true),
            None => (string_of(chars_of(token)), false),
        }
    }

    /// The signature to use for `token`: its decryption when the solver gave
    /// one, else `token` itself; and whether it gave one.
    pub fn sig_value_or_token(&self, token: &str) -> (r: (String, bool))
        ensures
            r.1 == self.sig_values@.contains_key(token@),
            r.0@ == if r.1 {
                self.sig_values@[token@]
            } else {
                token@
            },
    {
        match self.sig_values.get(token) {
            Some(v) => (string_of(chars_of(v.as_str())), true),
            None => (string_of(chars_of(token)), false),
        }
    }
}

/// The `n` value to use for `token` after asking the solver: its
/// decryption when the solver ran (`result` is `Some`) and gave one, else
/// `token` itself; and whether a decryption was found.
pub fn n_value_or_token(result: Option<&SolverResult>, token: &str) -> (r: (String, bool))
    ensures
        r.1 == (result is Some && result->0.n_values@.contains_key(token@)),
        r.0@ == if r.1 {
            result->0.n_values@[token@]
        } else {
            token@
        },
{
    match result {
        Some(res) => res.n_value_or_token(token),
        None => (string_of(chars_of(token)), false),
    }
}

// ---------------------------------------------------------------------
// The answer
// ---------------------------------------------------------------------

/// The string-valued members of an object, as a map (later members win).
pub open spec fn string_members(members: Seq<(String, Json)>) -> Map<Seq<char>, Seq<char>>
    decreases members.len(),
{
    if members.len() == 0 {
        Map::empty()
    } else {
        let m = string_members(members.drop_last());
        match as_str(members.last().1) {
            Some(v) => m.insert(members.last().0@, v),
            None => m,
        }
    }
}

/// A response whose `type` is `result` succeeded.
pub open spec fn response_ok(resp: Json) -> bool {
    is_text(field(resp, "type"@), "result"@)
}

/// The values that a successful response decrypts: the string members of
/// its `data` object.
pub open spec fn response_values(resp: Json) -> Map<Seq<char>, Seq<char>> {
    match as_object(field(resp, "data"@)) {
        Some(members) => string_members(members),
        None => Map::empty(),
    }
}

/// The response at `index`, when its request was made and the solver
/// answered it.
pub open spec fn slot(responses: Seq<Json>, requested: bool, index: int) -> Option<Json> {
    if requested && 0 <= index < responses.len() {
        Some(responses[index])
    } else {
        None
    }
}

/// What a response slot decrypts: nothing unless it succeeded.
pub open spec fn slot_values(s: Option<Json>) -> Map<Seq<char>, Seq<char>> {
    match s {
        Some(resp) => if response_ok(resp) {
            response_values(resp)
        } else {
            Map::empty()
        },
        None => Map::empty(),
    }
}

/// The kind of challenge.
#[derive(Debug, Clone, Copy, PartialEq, Eq)]
pub enum ChallengeKind {
    N,
    Sig,
}

/// A request that the solver could not answer, with the error it gave.
pub struct SolverWarning {
    pub kind: ChallengeKind,
    pub error: Json,
}

/// The warning that a response slot gives: one for a response that failed.
pub open spec fn slot_warnings(s: Option<Json>, kind: ChallengeKind) -> Seq<SolverWarning> {
    match s {
        Some(resp) => if response_ok(resp) {
            Seq::empty()
        } else {
            seq![SolverWarning { kind, error: field(resp, "error"@) }]
        },
        None => Seq::empty(),
    }
}

/// A solver answer that was read.
pub struct SolverOutput {
    pub result: SolverResult,
    /// Requests that failed, `n` before signature.
    pub warnings: Vec<SolverWarning>,
}

/// Why a solver answer could not be used.
pub enum SolverError {
    /// The solver reported an error, given here.
    Failed(Json),
    /// The answer has no `responses` array.
    MissingResponses,
    /// The solver's output is not JSON.
    Unparsable(serde_json::Error),
}

/// The string members of `members`, as a challenge map.
fn collect_strings(members: &Vec<(String, Json)>) -> (r: ChallengeMap)
    ensures
        r@ == string_members(members@),
{
    let mut map = ChallengeMap::new();
    let mut i: usize = 0;
    while i < members.len()
        invariant
            i <= members.len(),
            map@ == string_members(members@.take(i as int)),
        decreases members.len() - i,
    {
        proof {
            let t = members@.take(i + 1);
            assert(t.drop_last() =~= members@.take(i as int));
            assert(t.last() == members@[i as int]);
        }
        match members[i].1.as_str() {
            Some(v) => {
                let key = members[i].0.clone();
                map.insert(key, string_of(chars_of(v)));
            },
            None => {},
        }
        i = i + 1;
    }
    assert(members@.take(members.len() as int) =~= members@);
    map
}

/// Reads one response slot.
fn read_slot(s: Option<Json>, kind: ChallengeKind) -> (r: (ChallengeMap, Vec<SolverWarning>))
    ensures
        r.0@ == slot_values(s),
        r.1@ == slot_warnings(s, kind),
{
    match s {
        Some(resp) => {
            if resp.field("type").is_text("result") {
                let values = match resp.field("data").as_object() {
                    Some(members) => collect_strings(members),
                    None => ChallengeMap::new(),
                };
                (values, Vec::new())
            } else {
                let error = resp.take_field("error");
                let mut w: Vec<SolverWarning> = Vec::new();
                w.push(SolverWarning { kind, error });
                (ChallengeMap::new(), w)
            }
        },
        None => (ChallengeMap::new(), Vec::new()),
    }
}

/// What reading the answer `json` gives, for a request that asked for the
/// `n` challenges when `n_requested` and for the signatures when
/// `sig_requested`, responses coming in that order: the solver's own error,
/// no `responses` array, or the decrypted values and the warnings.
pub open spec fn answer_read_as(
    json: Json,
    n_requested: bool,
    sig_requested: bool,
    r: Result<SolverOutput, SolverError>,
) -> bool {
    if is_text(field(json, "type"@), "error"@) {
        r matches Err(SolverError::Failed(e)) && e == field(json, "error"@)
    } else {
        match as_array(field(json, "responses"@)) {
            None => r matches Err(SolverError::MissingResponses),
            Some(responses) => r matches Ok(out) && {
                let n_slot = slot(responses, n_requested, 0);
                let sig_slot = slot(responses, sig_requested, if n_requested { 1 } else { 0 });
                &&& out.result.n_values@ == slot_values(n_slot)
                &&& out.result.sig_values@ == slot_values(sig_slot)
                &&& out.warnings@ == slot_warnings(n_slot, ChallengeKind::N) + slot_warnings(
                    sig_slot,
                    ChallengeKind::Sig,
                )
            },
        }
    }
}

/// Reads the solver's answer to a request that asked for the `n`
/// challenges when `n_requested` and for the signatures when
/// `sig_requested`, responses coming in that order.
///
/// A failed response decrypts nothing and gives a warning; a missing one
/// decrypts nothing.
pub fn read_solver_output(json: Json, n_requested: bool, sig_requested: bool) -> (r: Result<
    SolverOutput,
    SolverError,
>)
    ensures
        answer_read_as(json, n_requested, sig_requested, r),
{
    if json.field("type").is_text("error") {
        return Err(SolverError::Failed(json.take_field("error")));
    }
    let responses = json.take_field("responses");
    let mut items = match responses {
        Json::Array(items) => items,
        _ => return Err(SolverError::MissingResponses),
    };
    let ghost all = items@;
    let sig_index: usize = if n_requested {
        1
    } else {
        0
    };
    let sig_resp = if sig_requested && sig_index < items.len() {
        Some(items.remove(sig_index))
    } else {
        None
    };
    let n_resp = if n_requested && 0 < items.len() {
        Some(items.remove(0))
    } else {
        None
    };
    proof {
        assert(sig_resp == slot(all, sig_requested, sig_index as int));
        assert(n_resp == slot(all, n_requested, 0));
    }
    let (n_values, n_warnings) = read_slot(n_resp, ChallengeKind::N);
    let (sig_values, sig_warnings) = read_slot(sig_resp, ChallengeKind::Sig);
    let mut warnings = n_warnings;
    let mut sw = sig_warnings;
    warnings.append(&mut sw);
    Ok(SolverOutput { result: SolverResult { n_values, sig_values }, warnings })
}

/// Reads what the solver printed: its output, without surrounding
/// whitespace, parsed as JSON, then read as [`answer_read_as`] says.
pub fn read_solver_answer(stdout: &str, n_requested: bool, sig_requested: bool) -> (r: Result<
    SolverOutput,
    SolverError,
>)
    ensures
        match json_parse(trim(stdout@)) {
            None => r matches Err(SolverError::Unparsable(_)),
            Some(json) => answer_read_as(json, n_requested, sig_requested, r),
        },
{
    let text = string_of(trim_exec(&chars_of(stdout)));
    match parse_json(text.as_str()) {
        Ok(json) => read_solver_output(json, n_requested, sig_requested),
        Err(e) => Err(SolverError::Unparsable(e)),
    }
}

// ---------------------------------------------------------------------
// The request
// ---------------------------------------------------------------------

/// The hexadecimal digit for `d < 16`, in lower case.
pub open spec fn hex_digit(d: nat) -> char {
    if d < 10 {
        (d + 48) as char
    } else {
        (d + 87) as char
    }
}

/// How a JSON string writes one character: quote, backslash and control
/// characters are escaped, the short forms used where JSON has one.
pub open spec fn escaped_char(c: char) -> Seq<char> {
    let u = c as u32;
    if c == '"' {
        seq!['\\', '"']
    } else if c == '\\' {
        seq!['\\', '\\']
    } else if u == 0x08 {
        seq!['\\', 'b']
    } else if u == 0x09 {
        seq!['\\', 't']
    } else if u == 0x0A {
        seq!['\\', 'n']
    } else if u == 0x0C {
        seq!['\\', 'f']
    } else if u == 0x0D {
        seq!['\\', 'r']
    } else if u < 0x20 {
        seq!['\\', 'u', '0', '0', hex_digit((u / 16) as nat), hex_digit((u % 16) as nat)]
    } else {
        seq![c]
    }
}

pub open spec fn escaped(s: Seq<char>) -> Seq<char>
    decreases s.len(),
{
    if s.len() == 0 {
        Seq::<char>::empty()
    } else {
        escaped(s.drop_last()) + escaped_char(s.last())
    }
}

/// `s` as a JSON string literal.
pub open spec fn json_string(s: Seq<char>) -> Seq<char> {
    seq!['"'] + escaped(s) + seq!['"']
}

/// `serde_json::to_string` on a string slice.
///
/// Claimed of the crate: the result is `Ok`, and holds the text as a JSON
/// string literal, escaped as [`json_string`] says. (The crate writes into
/// a `Vec`, which never fails, and escapes by the table that
/// [`escaped_char`] restates.)
#[verifier::external_body]
fn json_quote(s: &str) -> (r: Result<String, serde_json::Error>)
    ensures
        r.is_ok(),
        r matches Ok(t) ==> t@ == json_string(s@),
{
    serde_json::to_string(s)
}

/// The JSON string literal for `s`.
fn quoted(s: &str) -> (r: Vec<char>)
    ensures
        r@ == json_string(s@),
{
    match json_quote(s) {
        Ok(t) => chars_of(t.as_str()),
        Err(_) => Vec::new(),
    }
}

/// The views of a sequence of string slices.
pub open spec fn str_views(s: Seq<&str>) -> Seq<Seq<char>> {
    s.map_values(|x: &str| x@)
}

/// One request: decrypt `challenges` of the given kind (`n` or `sig`).
pub open spec fn request_spec(kind: Seq<char>, challenges: Seq<Seq<char>>) -> Seq<char> {
    "{\"type\":\""@ + kind + "\",\"challenges\":["@ + join(
        challenges.map_values(|c: Seq<char>| json_string(c)),
        ","@,
    ) + "]}"@
}

/// The document handed to the solver, or `None` when there is nothing to
/// decrypt: the player script and a request for the `n` challenges and one
/// for the signature challenges, each only when it has challenges.
pub open spec fn solver_input(player: Seq<char>, n: Seq<Seq<char>>, sig: Seq<Seq<char>>) -> Option<
    Seq<char>,
> {
    if n.len() == 0 && sig.len() == 0 {
        None
    } else {
        let requests = (if n.len() > 0 {
            seq![request_spec("n"@, n)]
        } else {
            Seq::<Seq<char>>::empty()
        }) + (if sig.len() > 0 {
            seq![request_spec("sig"@, sig)]
        } else {
            Seq::<Seq<char>>::empty()
        });
        Some(
            "{\"type\":\"player\",\"player\":"@ + json_string(player) + ",\"requests\":["@ + join(
                requests,
                ","@,
            ) + "],\"output_preprocessed\":false}"@,
        )
    }
}

/// Writes `items` as JSON strings separated by commas.
fn quoted_list(items: &[&str]) -> (r: Vec<char>)
    ensures
        r@ == join(str_views(items@).map_values(|c: Seq<char>| json_string(c)), ","@),
{
    let ghost all = str_views(items@).map_values(|c: Seq<char>| json_string(c));
    let mut r: Vec<char> = Vec::new();
    let mut i: usize = 0;
    while i < items.len()
        invariant
            i <= items.len(),
            all == str_views(items@).map_values(|c: Seq<char>| json_string(c)),
            r@ == join(all.take(i as int), ","@),
        decreases items.len() - i,
    {
        let q = quoted(items[i]);
        proof {
            assert(q@ == all[i as int]);
        }
        if i > 0 {
            let comma = chars_of(",");
            append(&mut r, &comma);
            append(&mut r, &q);
            proof {
                lemma_join_push(all.take(i as int), ","@, all[i as int]);
                assert(all.take(i + 1) =~= all.take(i as int).push(all[i as int]));
            }
        } else {
            append(&mut r, &q);
            assert(all.take(1) =~= seq![all[0]]);
        }
        i = i + 1;
    }
    assert(all.take(items.len() as int) =~= all);
    r
}

/// One request (see [`request_spec`]).
fn request(kind: &str, challenges: &[&str]) -> (r: Vec<char>)
    ensures
        r@ == request_spec(kind@, str_views(challenges@)),
{
    let mut r = chars_of("{\"type\":\"");
    let k = chars_of(kind);
    append(&mut r, &k);
    let mid = chars_of("\",\"challenges\":[");
    append(&mut r, &mid);
    let list = quoted_list(challenges);
    append(&mut r, &list);
    let end = chars_of("]}");
    append(&mut r, &end);
    r
}

/// The document to hand to the solver, or `None` when there is nothing to
/// decrypt (see [`solver_input`]).
pub fn solver_request(player_js: &str, n_challenges: &[&str], sig_challenges: &[&str]) -> (r:
    Option<String>)
    ensures
        match solver_input(player_js@, str_views(n_challenges@), str_views(sig_challenges@)) {
            Some(doc) => r matches Some(s) && s@ == doc,
            None => r is None,
        },
{
    if n_challenges.len() == 0 && sig_challenges.len() == 0 {
        return None;
    }
    let ghost n = str_views(n_challenges@);
    let ghost sig = str_views(sig_challenges@);
    let mut requests: Vec<char> = Vec::new();
    let ghost mut parts: Seq<Seq<char>> = Seq::empty();
    if n_challenges.len() > 0 {
        let q = request("n", n_challenges);
        append(&mut requests, &q);
        proof {
            parts = seq![request_spec("n"@, n)];
            assert(requests@ =~= join(parts, ","@));
        }
    }
    if sig_challenges.len() > 0 {
        let q = request("sig", sig_challenges);
        if n_challenges.len() > 0 {
            let comma = chars_of(",");
            append(&mut requests, &comma);
            proof {
                lemma_join_push(parts, ","@, request_spec("sig"@, sig));
            }
        } else {
            assert(requests@ =~= Seq::<char>::empty());
        }
        append(&mut requests, &q);
        proof {
            parts = parts.push(request_spec("sig"@, sig));
            if n_challenges.len() == 0 {
                assert(parts =~= seq![request_spec("sig"@, sig)]);
                assert(requests@ =~= join(parts, ","@));
            }
        }
    }
    proof {
        let expected = (if n.len() > 0 {
            seq![request_spec("n"@, n)]
        } else {
            Seq::<Seq<char>>::empty()
        }) + (if sig.len() > 0 {
            seq![request_spec("sig"@, sig)]
        } else {
            Seq::<Seq<char>>::empty()
        });
        assert(parts =~= expected);
    }
    let mut doc = chars_of("{\"type\":\"player\",\"player\":");
    let p = quoted(player_js);
    append(&mut doc, &p);
    let mid = chars_of(",\"requests\":[");
    append(&mut doc, &mid);
    append(&mut doc, &requests);
    let end = chars_of("],\"output_preprocessed\":false}");
    append(&mut doc, &end);
    Some(string_of(doc))
}

} // verus!
