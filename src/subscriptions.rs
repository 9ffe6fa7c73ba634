//! The confirmation email sent to a new subscriber.
use vstd::prelude::*;
use vstd::string::StringExecFns;

verus! {

pub open spec fn confirmation_link_of(base_url: Seq<char>, token: Seq<char>) -> Seq<char> {
    base_url + "/subscriptions/confirm?subscription_token="@ + token
}

/// The link that confirms the subscription holding `token`.
pub fn confirmation_link(base_url: &str, subscription_token: &str) -> (r: String)
    ensures
        r@ == confirmation_link_of(base_url@, subscription_token@),
{
    let link = base_url.to_owned().concat("/subscriptions/confirm?subscription_token=");
    link.concat(subscription_token)
}

/// The subject and the HTML and plain-text bodies of a confirmation email.
pub struct ConfirmationEmail {
    pub subject: String,
    pub html_body: String,
    pub plain_body: String,
}

impl ConfirmationEmail {
    pub fn new(base_url: &str, subscription_token: &str) -> (r: ConfirmationEmail)
        ensures
            r.subject@ == "Welcome"@,
            r.plain_body@ == "Welcome to our newsletter!\nVisit "@ + confirmation_link_of(base_url@, subscription_token@)
                + " to confirm your subscription"@,
            r.html_body@ == "Welcome to our newsletter!<br/>Click <a href=\""@ + confirmation_link_of(
                base_url@,
                subscription_token@,
            ) + "\">here</a> to confirm your subscription."@,
    {
        let link = confirmation_link(base_url, subscription_token);
        let plain_body = String::from_str("Welcome to our newsletter!\nVisit ").concat(link.as_str()).concat(
            " to confirm your subscription",
        );
        let html_body = String::from_str("Welcome to our newsletter!<br/>Click <a href=\"").concat(link.as_str()).concat(
            "\">here</a> to confirm your subscription.",
        );
        ConfirmationEmail { subject: String::from_str("Welcome"), html_body, plain_body }
    }
}

} // verus!
