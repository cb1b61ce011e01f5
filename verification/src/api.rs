//! The value types the HTTP surface exchanges with the library, and the small
//! pieces of pure logic behind the routes: form validation and the
//! confirmation-email bodies. Transport, routing and persistence stay with
//! the caller.

use vstd::prelude::*;

use crate::domain::{NewSubscriber, email_ok, subscriber_name_error, valid_subscriber_name};

verus! {

use vstd::string::StringExecFns;

/// A song submission: title and artist.
#[derive(Debug)]
pub struct Song {
    pub title: String,
    pub artist: String,
}

/// A newsletter issue: title and content.
#[derive(Debug)]
pub struct BodyData {
    pub title: String,
    pub content: Content,
}

/// A newsletter's body in both renderings.
#[derive(Debug)]
pub struct Content {
    pub text: String,
    pub html: String,
}

/// A raw subscription form: unvalidated email and name.
#[derive(Debug)]
pub struct SubscriberFormData {
    pub email: String,
    pub name: String,
}

impl SubscriberFormData {
    /// Validates the form into a subscriber, the name checked first.
    pub fn parse(self) -> (r: Result<NewSubscriber, String>)
        ensures
            match r {
                Ok(n) => valid_subscriber_name(self.name@) && email_ok(self.email@) && n.name.0@
                    == self.name@ && n.email.0@ == self.email@,
                Err(e) => !(valid_subscriber_name(self.name@) && email_ok(self.email@)) && (
                !valid_subscriber_name(self.name@) ==> e@ == subscriber_name_error(self.name@)) && (
                valid_subscriber_name(self.name@) ==> e@
                    == "Failed to parse subscriber email: '"@ + self.email@ + "'"@),
            },
    {
        NewSubscriber::try_from_parts(self.email, self.name)
    }
}

/// The query parameters of a confirmation request.
#[derive(Debug)]
pub struct Parameters {
    pub subscription_token: String,
}

/// One video found by a content search.
#[derive(Debug)]
pub struct VideoSearchResult {
    pub id: String,
    pub title: String,
}

/// What a subscription request can fail with.
#[derive(Debug)]
pub enum SubscribeError {
    ValidationError(String),
    UnexpectedError(String),
}

impl SubscribeError {
    /// The response body of the failure.
    pub fn message(&self) -> (r: String)
        ensures
            match self {
                SubscribeError::ValidationError(e) => r@ == "Validation error: "@ + e@,
                SubscribeError::UnexpectedError(e) => r@ == "Unexpected error: "@ + e@,
            },
    {
        match self {
            SubscribeError::ValidationError(e) => String::from_str("Validation error: ").concat(
                e.as_str(),
            ),
            SubscribeError::UnexpectedError(e) => String::from_str("Unexpected error: ").concat(
                e.as_str(),
            ),
        }
    }
}

/// What a confirmation request can fail with.
#[derive(Debug)]
pub enum ConfirmError {
    NotFound,
    UnexpectedError(String),
}

impl ConfirmError {
    /// The response body of the failure.
    pub fn message(&self) -> (r: String)
        ensures
            match self {
                ConfirmError::NotFound => r@ == "A subscriber with this token was not found"@,
                ConfirmError::UnexpectedError(e) => r@ == "Unexpected error: "@ + e@,
            },
    {
        match self {
            ConfirmError::NotFound => String::from_str(
                "A subscriber with this token was not found",
            ),
            ConfirmError::UnexpectedError(e) => String::from_str("Unexpected error: ").concat(
                e.as_str(),
            ),
        }
    }
}

/// What publishing a newsletter can fail with.
#[derive(Debug)]
pub enum PublishError {
    UnexpectedError(String),
}

impl PublishError {
    /// The failure rendered for logs.
    pub fn message(&self) -> (r: String)
        ensures
            match self {
                PublishError::UnexpectedError(e) => r@ == "Unexpected error: "@ + e@,
            },
    {
        match self {
            PublishError::UnexpectedError(e) => String::from_str("Unexpected error: ").concat(
                e.as_str(),
            ),
        }
    }
}

/// Builds the two bodies of a confirmation email around the confirmation
/// link: the HTML rendering first, the plain-text rendering second.
pub fn confirmation_email_bodies(confirmation_link: &str) -> (r: (String, String))
    ensures
        r.0@ == "Welcome to our newsletter!<br />\nClick <a href=\""@ + confirmation_link@
            + "\">here</a> to confirm your subscription."@,
        r.1@ == "Welcome to our newsletter!\nVisit "@ + confirmation_link@
            + " to confirm your subscription."@,
{
    let html = String::from_str("Welcome to our newsletter!<br />\nClick <a href=\"").concat(
        confirmation_link,
    ).concat("\">here</a> to confirm your subscription.");
    let plain = String::from_str("Welcome to our newsletter!\nVisit ").concat(
        confirmation_link,
    ).concat(" to confirm your subscription.");
    (html, plain)
}

} // verus!
