//! The authorization gate: a credential registry mapping tokens to the
//! collections they may write to, and the decision taken for one request.

use vstd::prelude::*;

verus! {

/// The grants held by a registry, as a mathematical value: one entry per
/// grant call, pairing a token with collection names it may write to. A
/// token's authorized set is the union over all its entries.
pub type GrantsModel = Seq<(Seq<char>, Seq<Seq<char>>)>;

/// A token is present in the registry.
pub open spec fn token_known(reg: GrantsModel, token: Seq<char>) -> bool {
    exists|i: int| 0 <= i < reg.len() && (#[trigger] reg[i]).0 == token
}

/// The token may write to the collection: some entry carries the token and
/// lists the collection.
pub open spec fn spec_authorized(reg: GrantsModel, token: Seq<char>, coll: Seq<char>) -> bool {
    exists|i: int, j: int|
        0 <= i < reg.len() && 0 <= j < (#[trigger] reg[i]).1.len() && reg[i].0 == token
            && #[trigger] reg[i].1[j] == coll
}

/// The header is `"Token <value>"`: at least the six characters of the
/// scheme and its separating space, and no further space afterwards (so the
/// header splits into exactly two space-separated parts).
pub open spec fn valid_scheme(h: Seq<char>) -> bool {
    &&& h.len() >= 6
    &&& h.subrange(0, 6) == "Token "@
    &&& forall|i: int| 6 <= i < h.len() ==> h[i] != ' '
}

/// The token a presentation header carries, if it is well formed.
pub open spec fn spec_token(h: Seq<char>) -> Option<Seq<char>> {
    if valid_scheme(h) {
        Some(h.subrange(6, h.len() as int))
    } else {
        None
    }
}

/// The authorization decision for one request: a header must be present, well
/// formed, and carry a token that is authorized for the collection.
pub open spec fn spec_decision(
    reg: GrantsModel,
    header: Option<Seq<char>>,
    coll: Seq<char>,
) -> bool {
    match header {
        None => false,
        Some(h) => match spec_token(h) {
            None => false,
            Some(t) => spec_authorized(reg, t, coll),
        },
    }
}

/// The shared credential registry. Entries accumulate through `grant`; a
/// token absent from every entry has no access to any collection.
pub struct Registry {
    entries: Vec<(String, Vec<String>)>,
}

impl View for Registry {
    type V = GrantsModel;

    closed spec fn view(&self) -> GrantsModel {
        self.entries@.map_values(
            |e: (String, Vec<String>)| (e.0@, e.1@.map_values(|s: String| s@)),
        )
    }
}

impl Registry {
    /// A registry that knows no token.
    pub fn new() -> (r: Registry)
        ensures
            r@.len() == 0,
    {
        Registry { entries: Vec::new() }
    }

    /// Provisioning write path: grants the token access to the collection,
    /// and changes no other right.
    pub fn grant(&mut self, token: &String, collection: String)
        ensures
            forall|t: Seq<char>, c: Seq<char>|
                spec_authorized(final(self)@, t, c) <==> (spec_authorized(old(self)@, t, c) || (
                t == token@ && c == collection@)),
            forall|t: Seq<char>|
                token_known(final(self)@, t) <==> (token_known(old(self)@, t) || t == token@),
    {
        let mut cols: Vec<String> = Vec::new();
        cols.push(collection);
        self.entries.push((token.clone(), cols));
        proof {
            let oldv = old(self)@;
            let newv = self@;
            assert(newv =~~= oldv.push((token@, seq![collection@])));
            assert forall|t: Seq<char>, c: Seq<char>|
                spec_authorized(newv, t, c) <==> (spec_authorized(oldv, t, c) || (t == token@
                    && c == collection@)) by {
                if spec_authorized(newv, t, c) {
                    let (i, j) = choose|i: int, j: int|
                        0 <= i < newv.len() && 0 <= j < (#[trigger] newv[i]).1.len()
                            && newv[i].0 == t && #[trigger] newv[i].1[j] == c;
                    if i < oldv.len() {
                        assert(oldv[i] == newv[i]);
                        assert(spec_authorized(oldv, t, c));
                    } else {
                        assert(newv[i] == (token@, seq![collection@]));
                        assert(t == token@ && c == collection@);
                    }
                }
                if spec_authorized(oldv, t, c) {
                    let (i, j) = choose|i: int, j: int|
                        0 <= i < oldv.len() && 0 <= j < (#[trigger] oldv[i]).1.len()
                            && oldv[i].0 == t && #[trigger] oldv[i].1[j] == c;
                    assert(newv[i] == oldv[i]);
                    assert(spec_authorized(newv, t, c));
                }
                if t == token@ && c == collection@ {
                    let i = oldv.len() as int;
                    assert(newv[i] == (token@, seq![collection@]));
                    assert(newv[i].1[0] == c);
                    assert(spec_authorized(newv, t, c));
                }
            }
            assert forall|t: Seq<char>|
                token_known(newv, t) <==> (token_known(oldv, t) || t == token@) by {
                if token_known(newv, t) {
                    let i = choose|i: int| 0 <= i < newv.len() && (#[trigger] newv[i]).0 == t;
                    if i < oldv.len() {
                        assert(oldv[i] == newv[i]);
                    }
                }
                if token_known(oldv, t) {
                    let i = choose|i: int| 0 <= i < oldv.len() && (#[trigger] oldv[i]).0 == t;
                    assert(newv[i] == oldv[i]);
                }
                if t == token@ {
                    let i = oldv.len() as int;
                    assert((#[trigger] newv[i]).0 == t);
                }
            }
        }
    }

    /// Membership test: is the token allowed to write to the
    /// collection?
    pub fn check(&self, token: &String, collection: &String) -> (r: bool)
        ensures
            r == spec_authorized(self@, token@, collection@),
    {
        let n = self.entries.len();
        let mut i: usize = 0;
        while i < n
            invariant
                n == self.entries.len(),
                i <= n,
                forall|ii: int, jj: int|
                    0 <= ii < i && 0 <= jj < (#[trigger] self@[ii]).1.len() ==> !(self@[ii].0
                        == token@ && #[trigger] self@[ii].1[jj] == collection@),
            decreases n - i,
        {
            if self.entries[i].0.eq(token) {
                let cols = &self.entries[i].1;
                let m = cols.len();
                let mut j: usize = 0;
                while j < m
                    invariant
                        n == self.entries.len(),
                        i < n,
                        m == cols.len(),
                        j <= m,
                        cols == &self.entries@[i as int].1,
                        self.entries@[i as int].0@ == token@,
                        forall|jj: int| 0 <= jj < j ==> #[trigger] self@[i as int].1[jj]
                            != collection@,
                    decreases m - j,
                {
                    if cols[j].eq(collection) {
                        assert(self@[i as int].1[j as int] == collection@);
                        return true;
                    }
                    j += 1;
                }
                assert forall|jj: int| 0 <= jj < (#[trigger] self@[i as int]).1.len() implies !(
                self@[i as int].0 == token@ && self@[i as int].1[jj] == collection@) by {
                    assert(self@[i as int].1[jj] != collection@);
                }
            }
            i += 1;
        }
        assert(!spec_authorized(self@, token@, collection@));
        false
    }
}

/// Pulls the credential out of a presentation header of the form
/// `"Token <value>"`; any other shape carries no credential.
pub fn extract_token(header: &str) -> (r: Option<String>)
    ensures
        match r {
            Some(t) => spec_token(header@) == Some(t@),
            None => spec_token(header@) is None,
        },
{
    let n = header.unicode_len();
    if n < 6 {
        return None;
    }
    let scheme = "Token ";
    proof {
        reveal_strlit("Token ");
    }
    let mut i: usize = 0;
    while i < 6
        invariant
            6 <= n == header@.len(),
            i <= 6,
            scheme@ == "Token "@,
            scheme@.len() == 6,
            forall|k: int| 0 <= k < i ==> header@[k] == "Token "@[k],
        decreases 6 - i,
    {
        if header.get_char(i) != scheme.get_char(i) {
            proof {
                assert(header@[i as int] != "Token "@[i as int]);
                if valid_scheme(header@) {
                    assert(header@.subrange(0, 6)[i as int] == header@[i as int]);
                }
            }
            return None;
        }
        i += 1;
    }
    proof {
        assert(header@.subrange(0, 6) =~= "Token "@);
    }
    let mut j: usize = 6;
    while j < n
        invariant
            6 <= n == header@.len(),
            6 <= j <= n,
            forall|k: int| 6 <= k < j ==> header@[k] != ' ',
        decreases n - j,
    {
        if header.get_char(j) == ' ' {
            assert(!valid_scheme(header@));
            return None;
        }
        j += 1;
    }
    assert(valid_scheme(header@));
    let token = header.substring_char(6, n).to_owned();
    Some(token)
}

/// The whole decision: never raises; `true` is the only authorized outcome, and any
/// missing or malformed header, unknown token, or out-of-scope collection
/// yields `false`.
pub fn authorize(reg: &Registry, header: Option<&String>, collection: &String) -> (r: bool)
    ensures
        r == spec_decision(
            reg@,
            match header {
                Some(h) => Some(h@),
                None => None,
            },
            collection@,
        ),
{
    match header {
        None => false,
        Some(h) => match extract_token(h.as_str()) {
            None => false,
            Some(token) => reg.check(&token, collection),
        },
    }
}

/// A token absent from the registry is denied for every collection.
pub proof fn lemma_unknown_token_denied(
    reg: GrantsModel,
    token: Seq<char>,
    collection: Seq<char>,
)
    requires
        !token_known(reg, token),
    ensures
        !spec_authorized(reg, token, collection),
{
    if spec_authorized(reg, token, collection) {
        let (i, j) = choose|i: int, j: int|
            0 <= i < reg.len() && 0 <= j < (#[trigger] reg[i]).1.len() && reg[i].0 == token
                && #[trigger] reg[i].1[j] == collection;
        assert((#[trigger] reg[i]).0 == token);
    }
}

/// A header without the fixed scheme literal, or with other than two
/// space-separated parts, is denied whatever the registry holds.
pub proof fn lemma_malformed_header_denied(
    reg: GrantsModel,
    header: Seq<char>,
    collection: Seq<char>,
)
    requires
        !valid_scheme(header),
    ensures
        !spec_decision(reg, Some(header), collection),
{
}

} // verus!
