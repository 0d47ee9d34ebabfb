use vstd::prelude::*;

verus! {

/// Authentication-phase failures. All are fatal to the request that raised
/// them and are never retried: a verification failure is an authorization
/// decision, not a transient error.
#[derive(Debug, PartialEq, Eq)]
pub enum AuthError {
    /// The token declared no target issuer at all.
    NoIssuersDeclared,
    /// None of the token's declared issuers is trusted here.
    UntrustedIssuer,
    /// The external verifier refused the token; the reason is its message.
    VerificationFailed(String),
}

/// A capability token as this core reads it: the issuer addresses the token
/// declares itself valid for. The signature material stays with the external
/// verifier; this core never inspects it.
pub struct CapabilityToken {
    pub issuers: Vec<String>,
}

impl View for CapabilityToken {
    type V = Seq<Seq<char>>;

    open spec fn view(&self) -> Seq<Seq<char>> {
        self.issuers.deep_view()
    }
}

/// What the authenticator decides before the external verifier is consulted:
/// an absent token makes the caller anonymous; a present one selects the
/// verification context the token must be checked against.
#[derive(Debug, PartialEq, Eq)]
pub enum AuthDecision {
    /// No token was presented; the caller is anonymous, which is not an
    /// error.
    Anonymous,
    /// The token must be verified, scoped to this issuer.
    Verify { issuer: String },
}

/// The first trusted issuer, in `trusted` order, that the token declares;
/// `None` when the two sets do not intersect.
pub open spec fn first_match_from(
    trusted: Seq<Seq<char>>,
    declared: Seq<Seq<char>>,
    i: int,
) -> Option<Seq<char>>
    decreases trusted.len() - i,
{
    if i < 0 || i >= trusted.len() {
        None
    } else if declared.contains(trusted[i]) {
        Some(trusted[i])
    } else {
        first_match_from(trusted, declared, i + 1)
    }
}

/// The first trusted issuer that the token declares.
pub open spec fn first_match(trusted: Seq<Seq<char>>, declared: Seq<Seq<char>>) -> Option<
    Seq<char>,
> {
    first_match_from(trusted, declared, 0)
}

/// Resolve an optional capability token against the configured trusted
/// issuers: no token is an anonymous caller; a token that declares no issuer
/// is refused; a token whose declared issuers meet none of the trusted ones
/// is refused; otherwise the first matching trusted issuer (in trusted
/// order) is selected as the context the external verifier must check the
/// token against.
pub fn authenticate(token: Option<&CapabilityToken>, trusted_issuers: &Vec<String>) -> (r: Result<
    AuthDecision,
    AuthError,
>)
    ensures
        match token {
            None => r == Ok::<AuthDecision, AuthError>(AuthDecision::Anonymous),
            Some(t) => if t@.len() == 0 {
                r == Err::<AuthDecision, AuthError>(AuthError::NoIssuersDeclared)
            } else {
                match first_match(trusted_issuers.deep_view(), t@) {
                    None => r == Err::<AuthDecision, AuthError>(AuthError::UntrustedIssuer),
                    Some(a) => match r {
                        Ok(AuthDecision::Verify { issuer }) => issuer@ == a,
                        _ => false,
                    },
                }
            },
        },
{
    let t = match token {
        None => {
            return Ok(AuthDecision::Anonymous);
        },
        Some(t) => t,
    };
    if t.issuers.len() == 0 {
        return Err(AuthError::NoIssuersDeclared);
    }
    let ghost trusted = trusted_issuers.deep_view();
    let n = trusted_issuers.len();
    for i in 0..n
        invariant
            n == trusted_issuers.len(),
            token == Some(t),
            t@.len() != 0,
            first_match(trusted, t@) == first_match_from(trusted, t@, i as int),
            trusted == trusted_issuers.deep_view(),
    {
        if declares(t, &trusted_issuers[i]) {
            proof {
                assert(trusted[i as int] == trusted_issuers@[i as int]@);
            }
            return Ok(AuthDecision::Verify { issuer: trusted_issuers[i].clone() });
        }
        proof {
            assert(trusted[i as int] == trusted_issuers@[i as int]@);
        }
    }
    Err(AuthError::UntrustedIssuer)
}

/// Whether the token declares `issuer` as one of its targets.
fn declares(token: &CapabilityToken, issuer: &String) -> (r: bool)
    ensures
        r == token@.contains(issuer@),
{
    let n = token.issuers.len();
    for i in 0..n
        invariant
            n == token.issuers.len(),
            forall|j: int| 0 <= j < i ==> token@[j] != issuer@,
    {
        if token.issuers[i] == *issuer {
            assert(token@[i as int] == issuer@);
            return true;
        }
        proof {
            assert(token@[i as int] == token.issuers@[i as int]@);
        }
    }
    false
}

/// Turn the external verifier's outcome into the authenticated principal:
/// the attested identity on success, `VerificationFailed` with the
/// verifier's reason otherwise. The principal is the verifier's output, not
/// a field claimed by the token, so a token cannot name its own identity.
pub fn conclude_verification(outcome: Result<String, String>) -> (r: Result<
    Option<String>,
    AuthError,
>)
    ensures
        r == match outcome {
            Ok(principal) => Ok::<Option<String>, AuthError>(Some(principal)),
            Err(reason) => Err::<Option<String>, AuthError>(AuthError::VerificationFailed(reason)),
        },
{
    match outcome {
        Ok(principal) => Ok(Some(principal)),
        Err(reason) => Err(AuthError::VerificationFailed(reason)),
    }
}

/// A token whose declared issuers meet none of the trusted ones selects no
/// verification context: with the authenticator's contract, such a token is
/// refused as `UntrustedIssuer`, whatever else it carries.
pub proof fn lemma_untrusted_issuer(trusted: Seq<Seq<char>>, declared: Seq<Seq<char>>)
    requires
        forall|j: int| 0 <= j < trusted.len() ==> !declared.contains(trusted[j]),
    ensures
        first_match(trusted, declared) == None::<Seq<char>>,
{
    lemma_no_match_from(trusted, declared, 0);
}

proof fn lemma_no_match_from(trusted: Seq<Seq<char>>, declared: Seq<Seq<char>>, i: int)
    requires
        forall|j: int| 0 <= j < trusted.len() ==> !declared.contains(trusted[j]),
        i >= 0,
    ensures
        first_match_from(trusted, declared, i) == None::<Seq<char>>,
    decreases trusted.len() - i,
{
    if i < trusted.len() {
        lemma_no_match_from(trusted, declared, i + 1);
    }
}

/// What a selected verification context is: the first trusted issuer the
/// token declares is itself trusted and declared; and none is selected
/// exactly when the declared and trusted issuers do not intersect.
pub proof fn lemma_first_match_characterizes(trusted: Seq<Seq<char>>, declared: Seq<Seq<char>>)
    ensures
        match first_match(trusted, declared) {
            Some(a) => trusted.contains(a) && declared.contains(a),
            None => forall|j: int| 0 <= j < trusted.len() ==> !declared.contains(trusted[j]),
        },
{
    lemma_match_from_characterizes(trusted, declared, 0);
}

proof fn lemma_match_from_characterizes(trusted: Seq<Seq<char>>, declared: Seq<Seq<char>>, i: int)
    requires
        i >= 0,
    ensures
        match first_match_from(trusted, declared, i) {
            Some(a) => trusted.contains(a) && declared.contains(a),
            None => forall|j: int| i <= j < trusted.len() ==> !declared.contains(trusted[j]),
        },
    decreases trusted.len() - i,
{
    if i < trusted.len() {
        if declared.contains(trusted[i]) {
            assert(trusted.contains(trusted[i]));
        } else {
            lemma_match_from_characterizes(trusted, declared, i + 1);
        }
    }
}

} // verus!
