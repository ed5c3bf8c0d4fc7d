use crate::error::SDKError;
use vstd::prelude::*;

verus! {

/// A bearer credential, kept as the text that goes on the wire.
pub struct AccessToken(String);

impl View for AccessToken {
    type V = Seq<char>;

    closed spec fn view(&self) -> Seq<char> {
        self.0@
    }
}

impl AccessToken {
    pub fn new(t: String) -> (r: AccessToken)
        ensures
            r@ == t@,
    {
        AccessToken(t)
    }

    pub fn as_str(&self) -> (r: &str)
        ensures
            r@ == self@,
    {
        self.0.as_str()
    }
}

impl AccessToken {
    /// The token that holds the text `t`.
    pub closed spec fn spec_from(t: String) -> AccessToken {
        AccessToken(t)
    }

    pub broadcast proof fn lemma_spec_from_view(t: String)
        ensures
            (#[trigger] AccessToken::spec_from(t))@ == t@,
    {
    }
}

impl From<String> for AccessToken {
    fn from(t: String) -> (r: AccessToken)
        ensures
            r@ == t@,
    {
        AccessToken(t)
    }
}

impl vstd::std_specs::convert::FromSpecImpl<String> for AccessToken {
    open spec fn obeys_from_spec() -> bool {
        true
    }

    open spec fn from_spec(t: String) -> AccessToken {
        AccessToken::spec_from(t)
    }
}

/// A credential source that always hands out the one token it was made with.
pub struct SingleTokenAuth {
    token: AccessToken,
}

impl View for SingleTokenAuth {
    type V = Seq<char>;

    closed spec fn view(&self) -> Seq<char> {
        self.token@
    }
}

impl SingleTokenAuth {
    pub fn new(token: String) -> (r: SingleTokenAuth)
        ensures
            r@ == token@,
    {
        SingleTokenAuth { token: AccessToken::new(token) }
    }

    /// The stored token; this source never fails.
    pub fn token(&self) -> (r: Result<&AccessToken, SDKError>)
        ensures
            r is Ok,
            r is Ok ==> r->Ok_0@ == self@,
    {
        Ok(&self.token)
    }
}

} // verus!
