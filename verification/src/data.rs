use vstd::prelude::*;

verus! {

use crate::tags::TagMap;

/// The mathematical value of one bookmark record.
pub ghost struct PostView {
    pub href: Seq<char>,
    pub title: Seq<char>,
    pub description: Seq<char>,
    pub tags: Seq<(Seq<char>, Seq<char>)>,
    pub time: Seq<char>,
}

/// One bookmark record fetched from the remote service. The `time` field is
/// passed through unmodified; the tags come from the service's space-delimited
/// `key:value` encoding.
#[derive(Debug)]
pub struct Post {
    pub href: String,
    pub title: String,
    pub description: String,
    pub tags: TagMap,
    pub time: String,
}

impl View for Post {
    type V = PostView;

    open spec fn view(&self) -> PostView {
        PostView {
            href: self.href@,
            title: self.title@,
            description: self.description@,
            tags: self.tags@,
            time: self.time@,
        }
    }
}

impl Default for Post {
    /// A record with empty fields and no tags.
    fn default() -> (r: Post)
        ensures
            r@.href == Seq::<char>::empty(),
            r@.title == Seq::<char>::empty(),
            r@.description == Seq::<char>::empty(),
            r@.tags == Seq::<(Seq<char>, Seq<char>)>::empty(),
            r@.time == Seq::<char>::empty(),
    {
        Post {
            href: String::new(),
            title: String::new(),
            description: String::new(),
            tags: TagMap::new(),
            time: String::new(),
        }
    }
}

/// The full ordered response: every fetched post, in the order the remote
/// service returned them.
#[derive(Debug)]
pub struct Data {
    pub posts: Vec<Post>,
}

impl View for Data {
    type V = Seq<PostView>;

    open spec fn view(&self) -> Seq<PostView> {
        self.posts@.map_values(|p: Post| p@)
    }
}

impl Default for Data {
    /// A response without posts.
    fn default() -> (r: Data)
        ensures
            r@ == Seq::<PostView>::empty(),
    {
        let d = Data { posts: Vec::new() };
        proof {
            assert(d@ =~= Seq::<PostView>::empty());
        }
        d
    }
}

} // verus!
