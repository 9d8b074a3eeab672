//! The sender of a chat message: the name and the IRC tags that came with it.
use crate::assoc::{find_last, keys_unique, pairs_map, put};
use crate::text::{
    chars_of, find_char, index_of, lemma_index_of_bound, remove_all, split, split_spec,
    string_of, string_without,
};
use vstd::prelude::*;

verus! {

/// The key and the value of one `;`-separated piece of a tag string: the
/// text before the first `=` with every `@` removed, and the text after it.
/// A piece without `=` gives an empty key and an empty value.
pub open spec fn tag_entry(p: Seq<char>) -> (Seq<char>, Seq<char>) {
    let i = index_of(p, '=');
    if i < p.len() {
        (remove_all(p.take(i as int), '@'), p.skip(i as int + 1))
    } else {
        (Seq::<char>::empty(), Seq::<char>::empty())
    }
}

/// The tags of the pieces, each stored in turn, so that a later piece with
/// the same key wins.
pub open spec fn tags_of_pieces(ps: Seq<Seq<char>>) -> Map<Seq<char>, Seq<char>>
    decreases ps.len(),
{
    if ps.len() == 0 {
        Map::empty()
    } else {
        tags_of_pieces(ps.drop_last()).insert(tag_entry(ps.last()).0, tag_entry(ps.last()).1)
    }
}

/// The tags that a tag string such as `@badges=vip/1;mod=0` stands for.
pub open spec fn tags_spec(tags: Seq<char>) -> Map<Seq<char>, Seq<char>> {
    tags_of_pieces(split_spec(tags, ';'))
}

/// A user of the chat.
#[derive(Debug)]
pub struct User {
    tags: Vec<(String, String)>,
    username: String,
}

impl User {
    /// No tag key is stored twice.
    #[verifier::type_invariant]
    spec fn keys_once(self) -> bool {
        keys_unique(self.tags@)
    }

    /// The user's tags, by key.
    pub closed spec fn tags_view(&self) -> Map<Seq<char>, Seq<char>> {
        pairs_map(self.tags@).map_values(|v: String| v@)
    }

    /// The user's name.
    pub closed spec fn name_view(&self) -> Seq<char> {
        self.username@
    }

    /// The user named `username` with the tags of the tag string `tags`.
    pub fn parse(tags: &str, username: &str) -> (u: User)
        ensures
            u.tags_view() == tags_spec(tags@),
            u.name_view() == username@,
    {
        let tv = chars_of(tags);
        let pieces = split(tv.as_slice(), ';');
        let ghost ps = split_spec(tv@, ';');
        let mut list: Vec<(String, String)> = Vec::new();
        let mut i: usize = 0;
        while i < pieces.len()
            invariant
                pieces.deep_view() == ps,
                i <= ps.len(),
                keys_unique(list@),
                pairs_map(list@).map_values(|v: String| v@) == tags_of_pieces(ps.take(i as int)),
            decreases pieces.len() - i,
        {
            let p = chars_of(pieces[i].as_str());
            let eq = find_char(p.as_slice(), 0, '=');
            proof {
                lemma_index_of_bound(p@, '=');
                assert(p@.skip(0) =~= p@);
            }
            let (key, value) = if eq < p.len() {
                let k = string_without(p.as_slice(), 0, eq, '@');
                let v = string_of(p.as_slice(), eq + 1, p.len());
                assert(p@.subrange(0, eq as int) =~= p@.take(eq as int));
                assert(p@.subrange(eq + 1, p@.len() as int) =~= p@.skip(eq + 1));
                (k, v)
            } else {
                (String::new(), String::new())
            };
            assert(ps.take(i + 1).drop_last() =~= ps.take(i as int));
            assert(ps.take(i + 1).last() == p@);
            put(&mut list, key, value);
            i = i + 1;
            assert(pairs_map(list@).map_values(|v: String| v@) =~= tags_of_pieces(
                ps.take(i as int),
            ));
        }
        assert(ps.take(ps.len() as int) =~= ps);
        User { tags: list, username: username.to_owned() }
    }

    /// The value of the tag `k`, if the user has that tag.
    pub fn tag(&self, k: &str) -> (r: Option<&String>)
        ensures
            r is Some <==> self.tags_view().contains_key(k@),
            r matches Some(v) ==> v@ == self.tags_view()[k@],
    {
        let kv = chars_of(k);
        match find_last(&self.tags, kv.as_slice()) {
            Some(i) => Some(&self.tags[i].1),
            None => None,
        }
    }

    /// The user's name.
    pub fn username(&self) -> (r: &String)
        ensures
            r@ == self.name_view(),
    {
        &self.username
    }

    /// The user as shown in the log (what `Display` shows): the name.
    pub fn display_text(&self) -> (r: String)
        ensures
            r@ == self.name_view(),
    {
        self.username.clone()
    }
}

} // verus!
