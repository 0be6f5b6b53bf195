//! Credentials: the basic-auth header sent with every search request,
//! and the contents of the flat credential file written at onboarding.

use vstd::prelude::*;

verus! {

/// What `base64::encode` returns for a string's UTF-8 bytes: the
/// standard alphabet with padding, a pure function of the characters.
pub uninterp spec fn base64_of(s: Seq<char>) -> Seq<char>;

/// Relies on `base64::encode` (standard alphabet, padded), whose
/// result depends on the input bytes alone.
#[verifier::external_body]
fn base64_encode_str(s: &str) -> (r: String)
    ensures
        r@ == base64_of(s@),
{
    base64::encode(s)
}

/// The HTTP basic-auth header value for an account: `Basic ` followed
/// by the base64 encoding of `email:token`.
pub fn basic_auth_header(email: &str, api_token: &str) -> (r: String)
    ensures
        r@ == "Basic "@ + base64_of(email@ + ":"@ + api_token@),
{
    let mut userpass = String::new();
    userpass.append(email);
    userpass.append(":");
    userpass.append(api_token);
    proof {
        assert(userpass@ =~= email@ + ":"@ + api_token@);
    }
    let encoded = base64_encode_str(userpass.as_str());
    let mut header = String::new();
    header.append("Basic ");
    header.append(encoded.as_str());
    proof {
        assert(header@ =~= "Basic "@ + base64_of(email@ + ":"@ + api_token@));
    }
    header
}

/// The contents of the credential file: one `NAME=value` line per
/// credential, in a fixed order, each line ended by a newline.
pub fn env_file_contents(base_url: &str, email: &str, api_token: &str) -> (r: String)
    ensures
        r@ == "JIRA_BASE_URL="@ + base_url@ + "\nJIRA_EMAIL="@ + email@ + "\nJIRA_API_TOKEN="@
            + api_token@ + "\n"@,
{
    let mut s = String::new();
    s.append("JIRA_BASE_URL=");
    s.append(base_url);
    s.append("\nJIRA_EMAIL=");
    s.append(email);
    s.append("\nJIRA_API_TOKEN=");
    s.append(api_token);
    s.append("\n");
    proof {
        assert(s@ =~= "JIRA_BASE_URL="@ + base_url@ + "\nJIRA_EMAIL="@ + email@
            + "\nJIRA_API_TOKEN="@ + api_token@ + "\n"@);
    }
    s
}

} // verus!
