//! The texts and redirect targets that the service answers with.
use vstd::prelude::*;
use crate::store::{
    Registration, StoreError, UrlStore, UrlView, registered, registration, resolution,
};

verus! {

/// The greeting shown at the root.
pub fn index() -> (r: &'static str)
    ensures
        r@ == "Welcome to Pitico, your very very simple URL shortener"@,
{
    "Welcome to Pitico, your very very simple URL shortener"
}

/// The prompt shown when a registration names no URL.
pub fn register() -> (r: &'static str)
    ensures
        r@ == "Please provide an URL to be shortened"@,
{
    "Please provide an URL to be shortened"
}

/// What a store error reports.
pub open spec fn error_details(e: StoreError) -> Seq<char> {
    match e {
        StoreError::IdentifiersExhausted => "no identifier is left"@,
    }
}

/// The reply to a registration that failed with `details`.
pub open spec fn error_text(details: Seq<char>) -> Seq<char> {
    "Error registering URL: "@ + details
}

/// The reply to a registration with outcome `r`.
pub open spec fn registration_text(r: Result<(UrlView, bool), StoreError>) -> Seq<char> {
    match r {
        Ok((rec, true)) => "URL registered under: "@ + rec.alias,
        Ok((rec, false)) => "URL \""@ + rec.original_url + "\" already registered under "@
            + rec.alias,
        Err(e) => error_text(error_details(e)),
    }
}

impl StoreError {
    /// A description of the error.
    pub fn details(&self) -> (r: String)
        ensures
            r@ == error_details(*self),
    {
        match self {
            StoreError::IdentifiersExhausted => String::from_str("no identifier is left"),
        }
    }
}

/// The reply to a registration that failed with `details`.
pub fn registration_error_reply(details: &str) -> (r: String)
    ensures
        r@ == error_text(details@),
{
    let mut r = String::from_str("Error registering URL: ");
    r.append(details);
    r
}

/// The reply to a successful registration.
pub fn registration_reply(reg: &Registration) -> (r: String)
    ensures
        r@ == registration_text(Ok(reg@)),
{
    if reg.created {
        let mut r = String::from_str("URL registered under: ");
        r.append(reg.record.short_url_string.as_str());
        r
    } else {
        let mut r = String::from_str("URL \"");
        r.append(reg.record.original_url.as_str());
        r.append("\" already registered under ");
        r.append(reg.record.short_url_string.as_str());
        r
    }
}

/// Registers `original_url` in `store` and returns the reply text.
pub fn register_value(store: &mut UrlStore, original_url: &str) -> (r: String)
    requires
        old(store).wf(),
    ensures
        final(store).wf(),
        final(store)@ == registered(old(store)@, original_url@),
        r@ == registration_text(registration(old(store)@, original_url@)),
{
    match store.register(original_url) {
        Ok(reg) => registration_reply(&reg),
        Err(e) => registration_error_reply(e.details().as_str()),
    }
}

/// The path that shows that `short_url` was not found.
pub open spec fn not_found_path(short_url: Seq<char>) -> Seq<char> {
    "/url_not_found/"@ + short_url
}

/// Where a request for `short_url` is sent.
pub open spec fn redirect_location(s: Seq<UrlView>, short_url: Seq<char>) -> Seq<char> {
    match resolution(s, short_url) {
        Some(url) => "http://"@ + url,
        None => not_found_path(short_url),
    }
}

/// The redirect target for `short_url`: its original URL behind `http://`,
/// or the not-found path for it.
pub fn redirect(store: &UrlStore, short_url: &str) -> (r: String)
    requires
        store.wf(),
    ensures
        r@ == redirect_location(store@, short_url@),
{
    match store.resolve(short_url) {
        Some(url) => {
            let mut r = String::from_str("http://");
            r.append(url.as_str());
            r
        },
        None => {
            let mut r = String::from_str("/url_not_found/");
            r.append(short_url);
            r
        },
    }
}

/// The text shown for an alias that was not found.
pub fn url_not_found(short_url: &str) -> (r: String)
    ensures
        r@ == "Pitico URL "@ + short_url@ + " not found"@,
{
    let mut r = String::from_str("Pitico URL ");
    r.append(short_url);
    r.append(" not found");
    r
}

} // verus!
