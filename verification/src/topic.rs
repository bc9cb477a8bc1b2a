use vstd::prelude::*;
use vstd::string::{StrSliceExecFns, StringExecFns};

verus! {

/// The key prefix under which every node declares its liveliness token.
pub open spec fn liveliness_prefix() -> Seq<char> {
    "liveliness/"@
}

/// The key that addresses `topic` on the node whose zid is `zid`: `topic/zid`.
pub open spec fn topic_key(topic: Seq<char>, zid: Seq<char>) -> Seq<char> {
    topic + "/"@ + zid
}

/// A topic that names many nodes at once (it ends in `/*` or `/**`) and is sent as it is.
pub open spec fn is_wildcard_topic(topic: Seq<char>) -> bool {
    "/*"@.is_suffix_of(topic) || "/**"@.is_suffix_of(topic)
}

/// A topic is a wildcard exactly when it ends in `/*` or in `/**`: a `/*` anywhere else in
/// it does not count.
pub proof fn lemma_wildcard_is_suffix(t: Seq<char>)
    ensures
        is_wildcard_topic(t) == ((t.len() >= 2 && t[t.len() - 2] == '/' && t[t.len() - 1] == '*') || (t.len() >= 3
            && t[t.len() - 3] == '/' && t[t.len() - 2] == '*' && t[t.len() - 1] == '*')),
{
    reveal_strlit("/*");
    reveal_strlit("/**");
    if t.len() >= 2 && t[t.len() - 2] == '/' && t[t.len() - 1] == '*' {
        assert("/*"@ =~= t.subrange(t.len() - 2, t.len() as int));
    }
    if t.len() >= 3 && t[t.len() - 3] == '/' && t[t.len() - 2] == '*' && t[t.len() - 1] == '*' {
        assert("/**"@ =~= t.subrange(t.len() - 3, t.len() as int));
    }
    if "/*"@.is_suffix_of(t) {
        assert(t[t.len() - 2] == "/*"@[0]);
        assert(t[t.len() - 1] == "/*"@[1]);
    }
    if "/**"@.is_suffix_of(t) {
        assert(t[t.len() - 3] == "/**"@[0]);
        assert(t[t.len() - 2] == "/**"@[1]);
        assert(t[t.len() - 1] == "/**"@[2]);
    }
}

/// The key of a topic on a node is the topic, a `/`, and the node's zid, char by char.
pub proof fn lemma_topic_key_chars(topic: Seq<char>, zid: Seq<char>)
    ensures
        topic_key(topic, zid) == topic + seq!['/'] + zid,
{
    reveal_strlit("/");
    assert("/"@ =~= seq!['/']);
}

/// The liveliness token key of the node `zid`.
pub open spec fn liveliness_key(zid: Seq<char>) -> Seq<char> {
    liveliness_prefix() + zid
}

/// The zid that a liveliness key names, if the key has the liveliness prefix.
pub open spec fn liveliness_zid(key: Seq<char>) -> Option<Seq<char>> {
    if liveliness_prefix().is_prefix_of(key) {
        Some(key.skip(liveliness_prefix().len() as int))
    } else {
        None
    }
}

/// Whether `suffix` ends `s`, compared char by char.
fn str_ends_with(s: &str, suffix: &str) -> (b: bool)
    ensures
        b == suffix@.is_suffix_of(s@),
{
    let n = s.unicode_len();
    let m = suffix.unicode_len();
    if m > n {
        return false;
    }
    let tail = s.substring_char(n - m, n);
    let same = tail.to_owned() == suffix.to_owned();
    proof {
        if suffix@.is_suffix_of(s@) {
            assert(tail@ =~= suffix@);
        }
    }
    same
}

/// What follows `prefix` in `s`, if `s` starts with it.
fn str_strip_prefix<'a>(s: &'a str, prefix: &str) -> (rest: Option<&'a str>)
    ensures
        rest is Some == prefix@.is_prefix_of(s@),
        rest is Some ==> rest->0@ == s@.skip(prefix@.len() as int),
{
    let n = s.unicode_len();
    let m = prefix.unicode_len();
    if m > n {
        return None;
    }
    let head = s.substring_char(0, m);
    if head.to_owned() == prefix.to_owned() {
        let rest = s.substring_char(m, n);
        assert(rest@ =~= s@.skip(m as int));
        Some(rest)
    } else {
        proof {
            if prefix@.is_prefix_of(s@) {
                assert(head@ =~= prefix@);
            }
        }
        None
    }
}

/// Whether `topic` is a wildcard topic, which is delivered without naming a node.
pub fn is_wildcard(topic: &str) -> (b: bool)
    ensures
        b == is_wildcard_topic(topic@),
        b == ((topic@.len() >= 2 && topic@[topic@.len() - 2] == '/' && topic@[topic@.len() - 1]
            == '*') || (topic@.len() >= 3 && topic@[topic@.len() - 3] == '/' && topic@[topic@.len()
            - 2] == '*' && topic@[topic@.len() - 1] == '*')),
{
    proof {
        lemma_wildcard_is_suffix(topic@);
    }
    str_ends_with(topic, "/*") || str_ends_with(topic, "/**")
}

/// The key `topic/zid` under which the node `zid` serves `topic`.
pub fn keyed_topic(topic: &str, zid: &str) -> (key: String)
    ensures
        key@ == topic_key(topic@, zid@),
        key@ == topic@ + seq!['/'] + zid@,
{
    proof {
        lemma_topic_key_chars(topic@, zid@);
    }
    topic.to_owned().concat("/").concat(zid)
}

/// The key of the liveliness token that the node `zid` declares.
pub fn liveliness_token_key(zid: &str) -> (key: String)
    ensures
        key@ == liveliness_key(zid@),
        key@ == "liveliness/"@ + zid@,
{
    "liveliness/".to_owned().concat(zid)
}

/// The key expression that matches the liveliness token of every node.
pub fn liveliness_subscription_key() -> (key: String)
    ensures
        key@ == liveliness_prefix() + "**"@,
        key@ == "liveliness/"@ + "**"@,
{
    "liveliness/".to_owned().concat("**")
}

/// The zid named by a liveliness key, or `None` if the key lacks the liveliness prefix.
pub fn parse_liveliness_key(key: &str) -> (zid: Option<&str>)
    ensures
        zid is Some == liveliness_zid(key@) is Some,
        zid is Some ==> zid->0@ == liveliness_zid(key@)->0,
        zid is Some == "liveliness/"@.is_prefix_of(key@),
        zid is Some ==> zid->0@ == key@.skip("liveliness/"@.len() as int),
{
    str_strip_prefix(key, "liveliness/")
}

/// A liveliness key is read back as the zid it was made from.
pub proof fn lemma_liveliness_key_roundtrip(zid: Seq<char>)
    ensures
        liveliness_zid(liveliness_key(zid)) == Some(zid),
{
    let key = liveliness_key(zid);
    assert(key.subrange(0, liveliness_prefix().len() as int) =~= liveliness_prefix());
    assert(key.skip(liveliness_prefix().len() as int) =~= zid);
}

/// Two nodes are addressed under one topic by two different keys: the key of a topic
/// determines the node.
pub proof fn lemma_topic_key_injective(topic: Seq<char>, zid1: Seq<char>, zid2: Seq<char>)
    requires
        topic_key(topic, zid1) == topic_key(topic, zid2),
    ensures
        zid1 == zid2,
{
    let n = (topic.len() + "/"@.len()) as int;
    assert(zid1 =~= topic_key(topic, zid1).skip(n));
    assert(zid2 =~= topic_key(topic, zid2).skip(n));
}

} // verus!
