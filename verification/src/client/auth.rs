//! Credentials of the remote store: the pair of tokens, the signing text of
//! a call, and what a browser cookie holds.

use crate::text::append_chars;
use crate::text::chars_of;
use crate::text::find_from;
use crate::text::lemma_text_le_total;
use crate::text::lemma_text_le_transitive;
use crate::text::next_match;
use crate::text::part;
use crate::text::same_chars;
use crate::text::split;
use crate::text::split_chars;
use crate::text::string_of;
use crate::text::text_before_or_same;
use crate::text::text_le;
use crate::text::trim;
use crate::text::trim_mark;
use crate::text::trimmed;
use crate::text::unmarked;
use vstd::prelude::*;

verus! {

broadcast use vstd::seq_lib::group_to_multiset_ensures;

/// The two tokens that open the remote store.
#[derive(Debug)]
pub struct Token {
    pub access_token: String,
    pub refresh_token: String,
}

/// The credentials in use, if there are any.
#[derive(Debug)]
pub struct RecAuth {
    pub token: Option<Token>,
}

/// The ticket that the remote store hands out before a login.
#[derive(Debug)]
pub struct RecTempTicketEntity {
    pub tempticket: String,
}

/// How a user logs in.
#[derive(Debug)]
pub enum RecAuthMethod {
    /// By name and password.
    UsernamePassword(String, String),
    /// By the two tokens of a browser cookie: access first, refresh second.
    Cookie(String, String),
}

/// Why a cookie cannot be used.
#[derive(Clone, Copy, Debug, PartialEq, Eq, Structural)]
pub enum CookieError {
    /// A part of the cookie has no `=`.
    BadPair,
    /// The cookie has no `Rec-Token`.
    NoToken,
    /// The cookie has no `Rec-RefreshToken`.
    NoRefreshToken,
    /// The escaped refresh token does not decode to text.
    BadEscape,
    /// The decoded refresh token is no JSON.
    BadJson,
    /// The decoded refresh token holds no text under `refresh_token`.
    NoRefreshField,
}

/// A key and its value.
pub type TextPair = (Seq<char>, Seq<char>);

/// What a sequence of pairs of strings holds.
pub open spec fn pairs_view(pairs: Seq<(String, String)>) -> Seq<TextPair> {
    pairs.map_values(|p: (String, String)| (p.0@, p.1@))
}

/// What a sequence of pairs of character vectors holds.
pub open spec fn chars_view(pairs: Seq<(Vec<char>, Vec<char>)>) -> Seq<TextPair> {
    pairs.map_values(|p: (Vec<char>, Vec<char>)| (p.0@, p.1@))
}

/// `sorted` with `p` put behind the last pair whose key is not after the key
/// of `p`.
pub open spec fn inserted(sorted: Seq<TextPair>, p: TextPair) -> Seq<TextPair>
    decreases sorted.len(),
{
    if sorted.len() == 0 {
        seq![p]
    } else if text_le(sorted.last().0, p.0) {
        sorted.push(p)
    } else {
        inserted(sorted.drop_last(), p).push(sorted.last())
    }
}

/// The pairs of `s` in the order of their keys; pairs with the same key keep
/// the order that they have in `s`.
pub open spec fn sorted_pairs(s: Seq<TextPair>) -> Seq<TextPair>
    decreases s.len(),
{
    if s.len() == 0 {
        Seq::empty()
    } else {
        inserted(sorted_pairs(s.drop_last()), s.last())
    }
}

/// Whether the keys of `s` are in order.
pub open spec fn keys_ascend(s: Seq<TextPair>) -> bool {
    forall|i: int, j: int| 0 <= i < j < s.len() ==> text_le(#[trigger] s[i].0, #[trigger] s[j].0)
}

/// A pair as `key=value`.
pub open spec fn pair_text(p: TextPair) -> Seq<char> {
    p.0 + seq!['='] + p.1
}

/// The pairs as `key=value`, with `&` between two of them.
pub open spec fn joined(pairs: Seq<TextPair>) -> Seq<char>
    decreases pairs.len(),
{
    if pairs.len() == 0 {
        Seq::empty()
    } else if pairs.len() == 1 {
        pair_text(pairs[0])
    } else {
        joined(pairs.drop_last()) + seq!['&'] + pair_text(pairs.last())
    }
}

/// The signing text of a dictionary: its pairs in the order of their keys,
/// each as `key=value`, with `&` between two of them.
pub open spec fn dict_text(dict: Seq<TextPair>) -> Seq<char> {
    joined(sorted_pairs(dict))
}

/// Where a pair goes: behind the last pair whose key is not after its own.
pub proof fn lemma_inserted_at(s: Seq<TextPair>, p: TextPair, j: int)
    requires
        0 <= j <= s.len(),
        forall|k: int| j <= k < s.len() ==> !text_le(#[trigger] s[k].0, p.0),
        j > 0 ==> text_le(s[j - 1].0, p.0),
    ensures
        inserted(s, p) == s.insert(j, p),
    decreases s.len(),
{
    if s.len() == 0 {
        assert(s.insert(0, p) =~= seq![p]);
    } else if j == s.len() {
        assert(s.insert(j, p) =~= s.push(p));
    } else {
        assert(!text_le(s[s.len() - 1].0, p.0));
        let t = s.drop_last();
        assert forall|k: int| j <= k < t.len() implies !text_le(#[trigger] t[k].0, p.0) by {
            assert(t[k] == s[k]);
        }
        lemma_inserted_at(t, p, j);
        assert(s.insert(j, p) =~= t.insert(j, p).push(s.last()));
    }
}

/// Putting a pair in adds that pair and no other.
pub proof fn lemma_inserted_holds(s: Seq<TextPair>, p: TextPair)
    ensures
        inserted(s, p).len() == s.len() + 1,
        inserted(s, p).to_multiset() == s.to_multiset().insert(p),
        forall|i: int|
            0 <= i < inserted(s, p).len() ==> (#[trigger] inserted(s, p)[i]) == p || s.contains(
                inserted(s, p)[i],
            ),
    decreases s.len(),
{
    let r = inserted(s, p);
    if s.len() == 0 {
        assert(s =~= Seq::<TextPair>::empty());
        assert(r =~= Seq::<TextPair>::empty().push(p));
    } else if text_le(s.last().0, p.0) {
        assert forall|i: int| 0 <= i < r.len() implies (#[trigger] r[i]) == p || s.contains(
            r[i],
        ) by {
            if i < s.len() {
                assert(r[i] == s[i]);
            }
        }
    } else {
        let t = s.drop_last();
        let u = inserted(t, p);
        lemma_inserted_holds(t, p);
        assert(s =~= t.push(s.last()));
        assert(r == u.push(s.last()));
        assert(r.to_multiset() =~= s.to_multiset().insert(p));
        assert forall|i: int| 0 <= i < r.len() implies (#[trigger] r[i]) == p || s.contains(
            r[i],
        ) by {
            if i < u.len() {
                assert(r[i] == u[i]);
                if u[i] != p {
                    let k = choose|k: int| 0 <= k < t.len() && t[k] == u[i];
                    assert(s[k] == u[i]);
                }
            } else {
                assert(r[i] == s[s.len() - 1]);
            }
        }
    }
}

/// Putting a pair into pairs whose keys are in order keeps them in order.
pub proof fn lemma_inserted_ascends(s: Seq<TextPair>, p: TextPair)
    requires
        keys_ascend(s),
    ensures
        keys_ascend(inserted(s, p)),
    decreases s.len(),
{
    let r = inserted(s, p);
    if s.len() == 0 {
    } else if text_le(s.last().0, p.0) {
        assert forall|i: int, j: int| 0 <= i < j < r.len() implies text_le(
            #[trigger] r[i].0,
            #[trigger] r[j].0,
        ) by {
            if j == s.len() {
                if i < s.len() - 1 {
                    assert(text_le(s[i].0, s[s.len() - 1].0));
                    lemma_text_le_transitive(s[i].0, s.last().0, p.0);
                }
            } else {
                assert(text_le(s[i].0, s[j].0));
            }
        }
    } else {
        let t = s.drop_last();
        let u = inserted(t, p);
        assert(keys_ascend(t)) by {
            assert forall|i: int, j: int| 0 <= i < j < t.len() implies text_le(
                #[trigger] t[i].0,
                #[trigger] t[j].0,
            ) by {
                assert(text_le(s[i].0, s[j].0));
            }
        }
        lemma_inserted_ascends(t, p);
        lemma_inserted_holds(t, p);
        lemma_text_le_total(s.last().0, p.0);
        assert forall|i: int, j: int| 0 <= i < j < r.len() implies text_le(
            #[trigger] r[i].0,
            #[trigger] r[j].0,
        ) by {
            if j < u.len() {
                assert(text_le(u[i].0, u[j].0));
            } else {
                assert(r[j] == s.last());
                assert(r[i] == u[i]);
                if u[i] != p {
                    let k = choose|k: int| 0 <= k < t.len() && t[k] == u[i];
                    assert(text_le(s[k].0, s[s.len() - 1].0));
                }
            }
        }
    }
}

/// The sorted pairs are the pairs given, each as often as given, with
/// their keys in order.
pub proof fn lemma_sorted_pairs(s: Seq<TextPair>)
    ensures
        sorted_pairs(s).len() == s.len(),
        sorted_pairs(s).to_multiset() == s.to_multiset(),
        keys_ascend(sorted_pairs(s)),
    decreases s.len(),
{
    if s.len() > 0 {
        let t = s.drop_last();
        lemma_sorted_pairs(t);
        lemma_inserted_holds(sorted_pairs(t), s.last());
        lemma_inserted_ascends(sorted_pairs(t), s.last());
        assert(s =~= t.push(s.last()));
    } else {
        assert(s =~= Seq::<TextPair>::empty());
    }
}

/// The key `Rec-Token`.
pub open spec fn token_key() -> Seq<char> {
    "Rec-Token"@
}

/// The key `Rec-RefreshToken`.
pub open spec fn refresh_key() -> Seq<char> {
    "Rec-RefreshToken"@
}

/// The name `refresh_token`.
pub open spec fn refresh_field() -> Seq<char> {
    "refresh_token"@
}

/// What stands between two parts of a cookie: a semicolon and a space.
pub open spec fn part_separator() -> Seq<char> {
    "; "@
}

/// The text `=`.
pub open spec fn equals_sign() -> Seq<char> {
    "="@
}

/// A cookie without the white space and, inside that, the quotation marks
/// around it.
pub open spec fn cookie_body(cookie: Seq<char>) -> Seq<char> {
    unmarked(trimmed(cookie), '"')
}

/// Whether a part of a cookie holds a `=`.
pub open spec fn has_equals(piece: Seq<char>) -> bool {
    next_match(piece, equals_sign(), 0) is Some
}

/// The key and the value of a part of a cookie: what stands before its
/// first `=`, and what stands after it.
pub open spec fn pair_of(piece: Seq<char>) -> TextPair {
    let i = next_match(piece, equals_sign(), 0)->0;
    (piece.take(i), piece.skip(i + equals_sign().len()))
}

/// The value of the last of `pairs` with the key `key`.
pub open spec fn last_value(pairs: Seq<TextPair>, key: Seq<char>) -> Option<Seq<char>>
    decreases pairs.len(),
{
    if pairs.len() == 0 {
        None
    } else if pairs.last().0 == key {
        Some(pairs.last().1)
    } else {
        last_value(pairs.drop_last(), key)
    }
}

/// The parts of a cookie, each as key and value.
pub open spec fn cookie_pairs(cookie: Seq<char>) -> Seq<TextPair> {
    split(cookie_body(cookie), part_separator()).map_values(|piece: Seq<char>| pair_of(piece))
}

/// Whether every part of a cookie holds a `=`.
pub open spec fn all_pairs(cookie: Seq<char>) -> bool {
    let pieces = split(cookie_body(cookie), part_separator());
    forall|i: int| 0 <= i < pieces.len() ==> has_equals(#[trigger] pieces[i])
}

/// The access token and the escaped refresh token of a cookie: the values
/// of `Rec-Token` and of `Rec-RefreshToken`, each taken from the last part
/// with that key.
pub open spec fn cookie_fields(cookie: Seq<char>) -> Result<TextPair, CookieError> {
    if !all_pairs(cookie) {
        Err(CookieError::BadPair)
    } else {
        match last_value(cookie_pairs(cookie), token_key()) {
            None => Err(CookieError::NoToken),
            Some(token) => match last_value(cookie_pairs(cookie), refresh_key()) {
                None => Err(CookieError::NoRefreshToken),
                Some(escaped) => Ok((token, escaped)),
            },
        }
    }
}

/// What a percent-escaped text decodes to; `None` where the decoded bytes
/// are no text.
pub uninterp spec fn percent_decoded(s: Seq<char>) -> Option<Seq<char>>;

/// What a JSON text holds under the name `key`: `None` where the text is no
/// JSON, `Some(None)` where it is no object or holds no text under `key`.
pub uninterp spec fn json_member_text(text: Seq<char>, key: Seq<char>) -> Option<
    Option<Seq<char>>,
>;

/// The refresh token that a decoded text holds.
pub open spec fn member_token(member: Option<Option<Seq<char>>>) -> Result<
    Seq<char>,
    CookieError,
> {
    match member {
        None => Err(CookieError::BadJson),
        Some(None) => Err(CookieError::NoRefreshField),
        Some(Some(token)) => Ok(token),
    }
}

/// The text that an escaped value decoded to.
pub open spec fn decoded_text(decoded: Option<Seq<char>>) -> Result<Seq<char>, CookieError> {
    match decoded {
        None => Err(CookieError::BadEscape),
        Some(text) => Ok(text),
    }
}

/// The access token and the refresh token of a cookie. The value of
/// `Rec-RefreshToken` is percent-escaped JSON, and the refresh token is what
/// that holds under `refresh_token`.
pub open spec fn cookie_tokens(cookie: Seq<char>) -> Result<TextPair, CookieError> {
    match cookie_fields(cookie) {
        Err(e) => Err(e),
        Ok((token, escaped)) => match decoded_text(percent_decoded(escaped)) {
            Err(e) => Err(e),
            Ok(text) => match member_token(json_member_text(text, refresh_field())) {
                Err(e) => Err(e),
                Ok(refresh) => Ok((token, refresh)),
            },
        },
    }
}

/// What an optional string holds.
pub open spec fn text_of(o: Option<String>) -> Option<Seq<char>> {
    match o {
        Some(s) => Some(s@),
        None => None,
    }
}

/// What an optional member holds.
pub open spec fn member_of(o: Option<Option<String>>) -> Option<Option<Seq<char>>> {
    match o {
        Some(m) => Some(text_of(m)),
        None => None,
    }
}

/// What a pair of tokens, or the error in its place, holds.
pub open spec fn tokens_view(r: Result<(String, String), CookieError>) -> Result<
    TextPair,
    CookieError,
> {
    match r {
        Ok(p) => Ok((p.0@, p.1@)),
        Err(e) => Err(e),
    }
}

/// `urlencoding::decode`: the text that a percent-escaped text decodes to,
/// or nothing where the decoded bytes are not UTF-8.
#[verifier::external_body]
fn percent_decode(s: &str) -> (r: Option<String>)
    ensures
        text_of(r) == percent_decoded(s@),
{
    match urlencoding::decode(s) {
        Ok(t) => Some(t.into_owned()),
        Err(_) => None,
    }
}

/// `serde_json::from_str` to a `serde_json::Value`, then `get` and `as_str`
/// on it: the text that a JSON object holds under `key`.
#[verifier::external_body]
fn json_member(text: &str, key: &str) -> (r: Option<Option<String>>)
    ensures
        member_of(r) == json_member_text(text@, key@),
{
    match serde_json::from_str::<serde_json::Value>(text) {
        Ok(v) => Some(v.get(key).and_then(|m| m.as_str()).map(|m| m.to_owned())),
        Err(_) => None,
    }
}

/// The value of the last of `pairs` with the key `key`.
fn find_last(pairs: &Vec<(Vec<char>, Vec<char>)>, key: &[char]) -> (r: Option<usize>)
    ensures
        last_value(chars_view(pairs@), key@) == match r {
            Some(i) => Some(pairs@[i as int].1@),
            None => None,
        },
        r matches Some(i) ==> i < pairs.len(),
{
    let ghost all = chars_view(pairs@);
    let mut i: usize = pairs.len();
    assert(all.take(i as int) == all);
    while i > 0
        invariant
            i <= pairs.len(),
            all == chars_view(pairs@),
            last_value(all, key@) == last_value(all.take(i as int), key@),
        decreases i,
    {
        let ghost head = all.take(i as int);
        assert(head.last() == (pairs@[i - 1].0@, pairs@[i - 1].1@));
        assert(head.drop_last() == all.take(i - 1));
        if same_chars(pairs[i - 1].0.as_slice(), key) {
            return Some(i - 1);
        }
        i -= 1;
    }
    None
}

impl Default for RecAuth {
    fn default() -> (r: Self)
        ensures
            r.token is None,
    {
        RecAuth { token: None }
    }
}

impl RecAuth {
    /// Whether what a user typed to log in is a cookie: it holds
    /// `Rec-Token`. Anything else is the name of the user.
    pub fn is_cookie(input: &str) -> (r: bool)
        ensures
            r == (next_match(input@, token_key(), 0) is Some),
    {
        find_from(chars_of(input).as_slice(), chars_of("Rec-Token").as_slice(), 0).is_some()
    }

    /// The way to log in with the cookie `input`.
    pub fn with_cookie(input: &str) -> (r: Result<RecAuthMethod, CookieError>)
        ensures
            match r {
                Ok(RecAuthMethod::Cookie(access, refresh)) => cookie_tokens(input@) == Ok::<
                    TextPair,
                    CookieError,
                >((access@, refresh@)),
                Ok(RecAuthMethod::UsernamePassword(_, _)) => false,
                Err(e) => cookie_tokens(input@) == Err::<TextPair, CookieError>(e),
            },
    {
        match RecAuth::parse_cookie(input) {
            Ok((access, refresh)) => Ok(RecAuthMethod::Cookie(access, refresh)),
            Err(e) => Err(e),
        }
    }

    /// The way to log in as the user that `input` names, white space around
    /// the name aside, with `password`.
    pub fn with_password(input: &str, password: String) -> (r: RecAuthMethod)
        ensures
            r matches RecAuthMethod::UsernamePassword(name, word) && name@ == trimmed(input@)
                && word@ == password@,
    {
        let raw = chars_of(input);
        let name = trim(raw.as_slice());
        RecAuthMethod::UsernamePassword(string_of(name.as_slice()), password)
    }

    /// The ticket that an answer holds: the answer must have the status
    /// [`crate::client::STATUS_OK`].
    pub fn get_tempticket(status_code: i32, entity: RecTempTicketEntity) -> (r: Result<
        String,
        crate::client::ClientError,
    >)
        ensures
            match r {
                Ok(t) => status_code == crate::client::STATUS_OK && t@ == entity.tempticket@,
                Err(e) => status_code != crate::client::STATUS_OK && e
                    == crate::client::ClientError::Status(status_code),
            },
    {
        match crate::client::check_status(status_code) {
            Ok(_) => Ok(entity.tempticket),
            Err(e) => Err(e),
        }
    }

    /// Takes these two tokens into use.
    pub fn set_token(&mut self, access_token: String, refresh_token: String)
        ensures
            final(self).token matches Some(t) && t.access_token@ == access_token@
                && t.refresh_token@ == refresh_token@,
    {
        self.token = Some(Token { access_token, refresh_token });
    }

    /// The token that every call to the remote store carries, if there is
    /// one.
    pub fn access_token(&self) -> (r: Option<&String>)
        ensures
            r is Some <==> self.token is Some,
            r matches Some(t) ==> t@ == self.token->0.access_token@,
    {
        match &self.token {
            Some(t) => Some(&t.access_token),
            None => None,
        }
    }

    /// The signing text of `dict`.
    pub fn serialize_dict(dict: &[(String, String)]) -> (r: String)
        ensures
            r@ == dict_text(pairs_view(dict@)),
    {
        let ghost all = pairs_view(dict@);
        let mut sorted: Vec<(Vec<char>, Vec<char>)> = Vec::new();
        let mut i: usize = 0;
        assert(all.take(0) =~= Seq::<TextPair>::empty());
        assert(chars_view(sorted@) =~= Seq::<TextPair>::empty());
        while i < dict.len()
            invariant
                i <= dict.len(),
                all == pairs_view(dict@),
                chars_view(sorted@) == sorted_pairs(all.take(i as int)),
            decreases dict.len() - i,
        {
            let key = chars_of(dict[i].0.as_str());
            let value = chars_of(dict[i].1.as_str());
            let ghost p: TextPair = (key@, value@);
            let ghost before = chars_view(sorted@);
            let mut j: usize = sorted.len();
            while j > 0 && !text_before_or_same(sorted[j - 1].0.as_slice(), key.as_slice())
                invariant
                    j <= sorted.len(),
                    before == chars_view(sorted@),
                    forall|k: int| j <= k < before.len() ==> !text_le(#[trigger] before[k].0, key@),
                decreases j,
            {
                assert(before[j - 1].0 == sorted@[j - 1].0@);
                j -= 1;
            }
            proof {
                if j > 0 {
                    assert(before[j - 1].0 == sorted@[j - 1].0@);
                }
                lemma_inserted_at(before, p, j as int);
                assert(all.take(i + 1).drop_last() == all.take(i as int));
                assert(all.take(i + 1).last() == p);
            }
            sorted.insert(j, (key, value));
            assert(chars_view(sorted@) =~= before.insert(j as int, p));
            i += 1;
        }
        assert(all.take(dict.len() as int) == all);
        let ghost pairs = chars_view(sorted@);
        let mut out: Vec<char> = Vec::new();
        let mut k: usize = 0;
        assert(pairs.take(0) =~= Seq::<TextPair>::empty());
        while k < sorted.len()
            invariant
                k <= sorted.len(),
                pairs == chars_view(sorted@),
                out@ == joined(pairs.take(k as int)),
            decreases sorted.len() - k,
        {
            let ghost done = pairs.take(k as int);
            let ghost next = pairs.take(k + 1);
            assert(next.drop_last() == done);
            assert(next.last() == (sorted@[k as int].0@, sorted@[k as int].1@));
            if k > 0 {
                out.push('&');
            }
            append_chars(&mut out, sorted[k].0.as_slice());
            out.push('=');
            append_chars(&mut out, sorted[k].1.as_slice());
            assert(out@ =~= joined(next)) by {
                if k == 0 {
                    assert(next[0] == next.last());
                }
            }
            k += 1;
        }
        assert(pairs.take(sorted.len() as int) == pairs);
        string_of(out.as_slice())
    }

    /// The access token and the escaped refresh token of a cookie.
    pub fn cookie_fields(cookie: &str) -> (r: Result<(String, String), CookieError>)
        ensures
            tokens_view(r) == cookie_fields(cookie@),
    {
        let raw = chars_of(cookie);
        let bare = trim(raw.as_slice());
        let body = trim_mark(bare.as_slice(), '"');
        let sep = chars_of("; ");
        let eq = chars_of("=");
        proof {
            reveal_strlit("; ");
            reveal_strlit("=");
        }
        let pieces = split_chars(body.as_slice(), sep.as_slice());
        let ghost parts = split(cookie_body(cookie@), part_separator());
        assert(parts == pieces@.map_values(|p: Vec<char>| p@));
        let ghost pairing = |piece: Seq<char>| pair_of(piece);
        let mut pairs: Vec<(Vec<char>, Vec<char>)> = Vec::new();
        let mut i: usize = 0;
        assert(chars_view(pairs@) =~= parts.take(0).map_values(pairing));
        while i < pieces.len()
            invariant
                i <= pieces.len(),
                eq@ == equals_sign(),
                eq@.len() == 1,
                parts == pieces@.map_values(|p: Vec<char>| p@),
                parts == split(cookie_body(cookie@), part_separator()),
                pairing == |piece: Seq<char>| pair_of(piece),
                forall|k: int| 0 <= k < i ==> has_equals(#[trigger] parts[k]),
                chars_view(pairs@) == parts.take(i as int).map_values(pairing),
            decreases pieces.len() - i,
        {
            let piece = &pieces[i];
            assert(parts[i as int] == piece@);
            match find_from(piece.as_slice(), eq.as_slice(), 0) {
                None => {
                    assert(!has_equals(parts[i as int]));
                    return Err(CookieError::BadPair);
                },
                Some(at) => {
                    let key = part(piece.as_slice(), 0, at);
                    let value = part(piece.as_slice(), at + 1, piece.len());
                    let ghost before = chars_view(pairs@);
                    pairs.push((key, value));
                    assert(chars_view(pairs@) =~= before.push(pair_of(piece@)));
                    assert(parts.take(i + 1).map_values(pairing) =~= parts.take(
                        i as int,
                    ).map_values(pairing).push(pair_of(piece@)));
                },
            }
            i += 1;
        }
        assert(parts.take(pieces.len() as int) == parts);
        assert(all_pairs(cookie@));
        assert(chars_view(pairs@) == cookie_pairs(cookie@));
        let token_key = chars_of("Rec-Token");
        let refresh_key = chars_of("Rec-RefreshToken");
        match find_last(&pairs, token_key.as_slice()) {
            None => Err(CookieError::NoToken),
            Some(t) => match find_last(&pairs, refresh_key.as_slice()) {
                None => Err(CookieError::NoRefreshToken),
                Some(e) => Ok((string_of(pairs[t].1.as_slice()), string_of(pairs[e].1.as_slice()))),
            },
        }
    }

    /// The decoded value of `Rec-RefreshToken`: `decoded` is `None` where
    /// the escaped value does not decode to text.
    pub fn decoded_text(decoded: Option<String>) -> (r: Result<String, CookieError>)
        ensures
            match r {
                Ok(t) => decoded_text(text_of(decoded)) == Ok::<Seq<char>, CookieError>(t@),
                Err(e) => decoded_text(text_of(decoded)) == Err::<Seq<char>, CookieError>(e),
            },
    {
        match decoded {
            None => Err(CookieError::BadEscape),
            Some(t) => Ok(t),
        }
    }

    /// The refresh token that the decoded value of `Rec-RefreshToken` holds:
    /// `member` is `None` where that value is no JSON, and `Some(None)`
    /// where it holds no text under `refresh_token`.
    pub fn refresh_token_of(member: Option<Option<String>>) -> (r: Result<String, CookieError>)
        ensures
            match r {
                Ok(t) => member_token(member_of(member)) == Ok::<Seq<char>, CookieError>(t@),
                Err(e) => member_token(member_of(member)) == Err::<Seq<char>, CookieError>(e),
            },
    {
        match member {
            None => Err(CookieError::BadJson),
            Some(None) => Err(CookieError::NoRefreshField),
            Some(Some(t)) => Ok(t),
        }
    }

    /// The access token and the refresh token of a cookie.
    pub fn parse_cookie(cookie: &str) -> (r: Result<(String, String), CookieError>)
        ensures
            tokens_view(r) == cookie_tokens(cookie@),
    {
        match Self::cookie_fields(cookie) {
            Err(e) => Err(e),
            Ok((token, escaped)) => match Self::decoded_text(percent_decode(escaped.as_str())) {
                Err(e) => Err(e),
                Ok(text) => {
                    match Self::refresh_token_of(json_member(text.as_str(), "refresh_token")) {
                        Err(e) => Err(e),
                        Ok(refresh) => Ok((token, refresh)),
                    }
                },
            },
        }
    }
}

} // verus!
