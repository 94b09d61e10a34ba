//! Configuration of the infrastructure that repositories are published to.

use vstd::prelude::*;
use std::collections::{HashMap, VecDeque};
use crate::text::{opt_text, starts_with};

verus! {

/// Configuration that is specific to AWS.
#[derive(Debug, Default)]
pub struct AwsConfig {
    pub regions: VecDeque<String>,
    pub role: Option<String>,
    pub profile: Option<String>,
    pub region: HashMap<String, AwsRegionConfig>,
    pub ssm_prefix: Option<String>,
}

/// Configuration of one AWS region.
#[derive(Debug)]
pub struct AwsRegionConfig {
    pub role: Option<String>,
    pub endpoint: Option<String>,
}

/// Where a signing key is kept.
#[allow(non_camel_case_types)]
#[derive(Debug)]
pub enum SigningKeyConfig {
    file { path: String },
    kms { key_id: String },
    ssm { parameter: String },
}

/// `name` with a slash before it, unless it starts with one.
pub open spec fn rooted_name(name: Seq<char>) -> Seq<char> {
    if name.len() > 0 && name[0] == '/' {
        name
    } else {
        "/"@ + name
    }
}

/// The text of the URL of a key that a service keeps: the scheme of the
/// service, and the name of the key as the path. A key in a file has no
/// such text: its URL comes from the file's path.
pub open spec fn key_url_text(key: SigningKeyConfig) -> Option<Seq<char>> {
    match key {
        SigningKeyConfig::file { path } => None,
        SigningKeyConfig::kms { key_id } => Some("aws-kms://"@ + rooted_name(key_id@)),
        SigningKeyConfig::ssm { parameter } => Some("aws-ssm://"@ + rooted_name(parameter@)),
    }
}

/// `name` with a slash before it, unless it starts with one.
fn with_leading_slash(name: &str) -> (r: String)
    ensures
        r@ == rooted_name(name@),
{
    proof {
        reveal_strlit("/");
    }
    if starts_with(name, "/") {
        assert("/"@.is_prefix_of(name@));
        assert(name@[0] == "/"@[0]);
        String::from_str(name)
    } else {
        proof {
            if name@.len() > 0 && name@[0] == '/' {
                assert(name@.subrange(0, 1) =~= "/"@);
            }
        }
        String::from_str("/").concat(name)
    }
}

impl SigningKeyConfig {
    /// The text of the URL of a key that a service keeps.
    pub fn url_text(&self) -> (r: Option<String>)
        ensures
            opt_text(r) == key_url_text(*self),
    {
        match self {
            SigningKeyConfig::file { path } => None,
            SigningKeyConfig::kms { key_id } => {
                let name = with_leading_slash(key_id.as_str());
                Some(String::from_str("aws-kms://").concat(name.as_str()))
            },
            SigningKeyConfig::ssm { parameter } => {
                let name = with_leading_slash(parameter.as_str());
                Some(String::from_str("aws-ssm://").concat(name.as_str()))
            },
        }
    }
}

} // verus!
