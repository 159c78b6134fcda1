use vstd::prelude::*;

verus! {

use crate::data::Data;
use crate::data::Post;
use crate::data::PostView;
use crate::tags::parse_tags;
use crate::tags::parse_tags_spec;

/// What one attempt against the remote endpoint produced, as the surrounding
/// program hands it in: either no response at all, or a status verdict with
/// the body text.
#[derive(Debug)]
pub enum HttpReply {
    /// The request itself failed: no HTTP response arrived. Holds the
    /// transport's message.
    Failed { error: String },
    /// A response arrived: whether its status is a success, and its body.
    Response { success: bool, body: String },
}

/// Why fetching posts failed.
#[derive(Debug, PartialEq)]
pub enum FetchError {
    /// The transport failed before any response arrived; holds its message.
    Transport(String),
    /// The endpoint answered with a non-success status.
    RequestFailed,
    /// The response body did not decode as the expected JSON; holds the
    /// decoder's message.
    Parse(String),
}

impl FetchError {
    /// The message shown for this error.
    pub open spec fn spec_message(&self) -> Seq<char> {
        match self {
            FetchError::Transport(m) => m@,
            FetchError::RequestFailed => "Request to Pinboard API failed for unknown reason."@,
            FetchError::Parse(m) => m@,
        }
    }

    /// The message shown for this error.
    pub fn message(&self) -> (r: String)
        ensures
            r@ == self.spec_message(),
    {
        match self {
            FetchError::Transport(m) => m.clone(),
            FetchError::RequestFailed => "Request to Pinboard API failed for unknown reason.".to_owned(),
            FetchError::Parse(m) => m.clone(),
        }
    }
}

/// The fixed endpoint queried for the complete set of posts.
pub fn api_url() -> (r: &'static str)
    ensures
        r@ == "https://api.pinboard.in/v1/posts/all"@,
{
    "https://api.pinboard.in/v1/posts/all"
}

/// The query parameters of one fetch: JSON format, the caller's token, and
/// the tag filter (the empty string when no filter is wanted).
pub fn query_params(token: &str, filter: &str) -> (r: Vec<(String, String)>)
    ensures
        r@.len() == 3,
        r@[0].0@ == "format"@ && r@[0].1@ == "json"@,
        r@[1].0@ == "auth_token"@ && r@[1].1@ == token@,
        r@[2].0@ == "tag"@ && r@[2].1@ == filter@,
{
    let mut v: Vec<(String, String)> = Vec::new();
    v.push(("format".to_owned(), "json".to_owned()));
    v.push(("auth_token".to_owned(), token.to_owned()));
    v.push(("tag".to_owned(), filter.to_owned()));
    v
}

/// The filter to use when the caller gave none: the empty string, which the
/// endpoint reads as no filter at all.
pub fn filter_or_default(filter: Option<String>) -> (r: String)
    ensures
        match filter {
            Some(f) => r@ == f@,
            None => r@ == Seq::<char>::empty(),
        },
{
    match filter {
        Some(f) => f,
        None => String::new(),
    }
}

/// Decides what a reply means: a transport failure is reported as such, a
/// non-success status as a failed request — two distinct errors — and a
/// success status hands the body on for decoding.
pub fn check_reply(reply: HttpReply) -> (r: Result<String, FetchError>)
    ensures
        match reply {
            HttpReply::Failed { error } => r matches Err(FetchError::Transport(m)) && m@
                == error@,
            HttpReply::Response { success, body } => if success {
                r matches Ok(b) && b@ == body@
            } else {
                r matches Err(FetchError::RequestFailed)
            },
        },
{
    match reply {
        HttpReply::Failed { error } => Err(FetchError::Transport(error)),
        HttpReply::Response { success, body } => if success {
            Ok(body)
        } else {
            Err(FetchError::RequestFailed)
        },
    }
}

/// One post as the wire decoder hands it in: every field still a plain
/// string, the tags still in their space-delimited `key:value` encoding.
pub struct PostRecord {
    pub href: String,
    pub title: String,
    pub description: String,
    pub tags: String,
    pub time: String,
}

impl PostRecord {
    /// The post this record decodes to: the fields carried over unchanged,
    /// the tag string decoded into its mapping.
    pub open spec fn decoded(&self) -> PostView {
        PostView {
            href: self.href@,
            title: self.title@,
            description: self.description@,
            tags: parse_tags_spec(self.tags@),
            time: self.time@,
        }
    }
}

/// Builds the post a record denotes, decoding its tag string.
pub fn post_of_record(r: &PostRecord) -> (p: Post)
    ensures
        p@ == r.decoded(),
{
    Post {
        href: r.href.clone(),
        title: r.title.clone(),
        description: r.description.clone(),
        tags: parse_tags(r.tags.as_str()),
        time: r.time.clone(),
    }
}

/// Turns the wire decoder's outcome into the fetched data: a decoding failure
/// is reported as a parse error, and decoded records become posts, in order.
pub fn data_of_records(outcome: Result<Vec<PostRecord>, String>) -> (r: Result<Data, FetchError>)
    ensures
        match outcome {
            Err(m) => r matches Err(FetchError::Parse(pm)) && pm@ == m@,
            Ok(rs) => r matches Ok(d) && d@.len() == rs@.len() && (forall|i: int|
                0 <= i < rs@.len() ==> d@[i] == rs@[i].decoded()),
        },
{
    match outcome {
        Err(m) => Err(FetchError::Parse(m)),
        Ok(rs) => {
            let n = rs.len();
            let mut posts: Vec<Post> = Vec::new();
            let mut i: usize = 0;
            while i < n
                invariant
                    n == rs@.len(),
                    i <= n,
                    posts@.len() == i,
                    forall|j: int| 0 <= j < i ==> posts@[j]@ == rs@[j].decoded(),
                decreases n - i,
            {
                posts.push(post_of_record(&rs[i]));
                i += 1;
            }
            let d = Data { posts };
            proof {
                assert(forall|j: int| 0 <= j < n ==> d@[j] == d.posts@[j]@);
            }
            Ok(d)
        }
    }
}

} // verus!
