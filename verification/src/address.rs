//! Addresses of blocks.
//!
//! A block is addressed by the chain it was posted to and by the hash of its post,
//! written `fchs:<chain>:<post>`. A link from one block to another may leave the
//! chain out, `fchs:<post>`, and then means the chain of the block that holds it.

use crate::error::{Error, ErrorView};
use vstd::prelude::*;
use vstd::string::*;

verus! {

/// Whether `s` holds no `':'`.
pub open spec fn colon_free(s: Seq<char>) -> bool {
    forall|i: int| 0 <= i < s.len() ==> s[i] != ':'
}

/// The index of the first `':'` in `s`.
pub open spec fn first_colon(s: Seq<char>) -> Option<int>
    decreases s.len(),
{
    if s.len() == 0 {
        None
    } else if s[0] == ':' {
        Some(0)
    } else {
        match first_colon(s.drop_first()) {
            Some(i) => Some(i + 1),
            None => None,
        }
    }
}

/// The index of the last `':'` in `s`.
pub open spec fn last_colon(s: Seq<char>) -> Option<int>
    decreases s.len(),
{
    if s.len() == 0 {
        None
    } else if s.last() == ':' {
        Some(s.len() - 1)
    } else {
        last_colon(s.drop_last())
    }
}

/// What an address is made of: the chain, where the text names one, and the post.
pub type AddressView = (Option<Seq<char>>, Seq<char>);

/// The address that `uri` stands for, or the reason why it stands for none.
///
/// The text up to the first `':'` must be `fchs`. What follows is the post, unless it
/// holds a `':'` itself: then the chain is what stands before its first `':'` and the
/// post what stands after its last.
pub open spec fn parse_spec(uri: Seq<char>) -> Result<AddressView, Seq<char>> {
    match first_colon(uri) {
        None => Err("no scheme specified on URI"@),
        Some(i) => {
            let rest = uri.skip(i + 1);
            if uri.take(i) != "fchs"@ {
                Err("invalid URI scheme"@)
            } else {
                match first_colon(rest) {
                    None => Ok((None, rest)),
                    Some(j) => if j == 0 {
                        Err("invalid 'fchs' URI format, missing chain name"@)
                    } else {
                        Ok((Some(rest.take(j)), rest.skip(last_colon(rest).unwrap() + 1)))
                    },
                }
            }
        },
    }
}

/// The text of an address: `fchs:<post>` without a chain, `fchs:<chain>:<post>` with
/// one.
pub open spec fn render_spec(chain: Option<Seq<char>>, post: Seq<char>) -> Seq<char> {
    match chain {
        None => "fchs:"@ + post,
        Some(chain) => "fchs:"@ + chain + ":"@ + post,
    }
}

/// The chain and post that the link `prev`, found in a block of `chain`, points to:
/// a link that names no chain stays on `chain`.
pub open spec fn resolve_spec(prev: Seq<char>, chain: Seq<char>) -> Result<
    (Seq<char>, Seq<char>),
    Seq<char>,
> {
    match parse_spec(prev) {
        Ok((Some(named), post)) => Ok((named, post)),
        Ok((None, post)) => Ok((chain, post)),
        Err(why) => Err(why),
    }
}

/// The view of an optional string.
pub open spec fn optional_text(s: Option<String>) -> Option<Seq<char>> {
    match s {
        Some(s) => Some(s@),
        None => None,
    }
}

/// A `':'` at `i` with none before it is the first one.
pub proof fn lemma_first_colon_at(s: Seq<char>, i: int)
    requires
        0 <= i < s.len(),
        s[i] == ':',
        colon_free(s.take(i)),
    ensures
        first_colon(s) == Some(i),
    decreases i,
{
    if i > 0 {
        assert(s.take(i)[0] == s[0]);
        let t = s.drop_first();
        let head = t.take(i - 1);
        assert forall|k: int| 0 <= k < i - 1 implies head[k] != ':' by {
            assert(head[k] == s.take(i)[k + 1]);
        }
        lemma_first_colon_at(t, i - 1);
    }
}

/// A text without `':'` has no first one, and the other way round.
pub proof fn lemma_first_colon_none(s: Seq<char>)
    ensures
        first_colon(s) is None <==> colon_free(s),
        first_colon(s) matches Some(i) ==> 0 <= i < s.len() && s[i] == ':' && colon_free(
            s.take(i),
        ),
    decreases s.len(),
{
    if s.len() > 0 {
        if s[0] != ':' {
            let t = s.drop_first();
            lemma_first_colon_none(t);
            match first_colon(t) {
                Some(i) => {
                    assert(s[i + 1] == t[i]);
                    let head = s.take(i + 1);
                    assert forall|k: int| 0 <= k < i + 1 implies head[k] != ':' by {
                        if k > 0 {
                            assert(head[k] == t.take(i)[k - 1]);
                        }
                    }
                },
                None => {
                    assert forall|k: int| 0 <= k < s.len() implies s[k] != ':' by {
                        if k > 0 {
                            assert(s[k] == t[k - 1]);
                        }
                    }
                },
            }
        } else {
            assert(s.take(0).len() == 0);
        }
    }
}

/// A `':'` at `i` with none after it is the last one.
pub proof fn lemma_last_colon_at(s: Seq<char>, i: int)
    requires
        0 <= i < s.len(),
        s[i] == ':',
        colon_free(s.skip(i + 1)),
    ensures
        last_colon(s) == Some(i),
    decreases s.len(),
{
    if i < s.len() - 1 {
        assert(s.skip(i + 1)[s.len() - 1 - (i + 1)] == s.last());
        let t = s.drop_last();
        let tail = t.skip(i + 1);
        assert forall|k: int| 0 <= k < tail.len() implies tail[k] != ':' by {
            assert(tail[k] == s.skip(i + 1)[k]);
        }
        lemma_last_colon_at(t, i);
    }
}

/// Reading back what [`render_spec`] wrote gives the address it was written from, as
/// long as the chain is not empty and neither part holds a `':'`.
pub proof fn lemma_parse_render(chain: Option<Seq<char>>, post: Seq<char>)
    requires
        colon_free(post),
        chain matches Some(c) ==> c.len() > 0 && colon_free(c),
    ensures
        parse_spec(render_spec(chain, post)) == Ok::<AddressView, Seq<char>>((chain, post)),
{
    reveal_strlit("fchs");
    reveal_strlit("fchs:");
    reveal_strlit(":");
    let uri = render_spec(chain, post);
    assert(uri.take(4) =~= "fchs"@);
    assert(colon_free(uri.take(4)));
    lemma_first_colon_at(uri, 4);
    let rest = uri.skip(5);
    match chain {
        None => {
            assert(rest =~= post);
            lemma_first_colon_none(rest);
        },
        Some(c) => {
            let n = c.len() as int;
            assert(rest =~= c + ":"@ + post);
            assert(rest.take(n) =~= c);
            assert(rest.skip(n + 1) =~= post);
            lemma_first_colon_at(rest, n);
            lemma_last_colon_at(rest, n);
        },
    }
}

/// A link that names no chain points into the chain of the chunk that holds it,
/// whichever chain that is.
pub proof fn lemma_link_stays(prev: Seq<char>, chain: Seq<char>)
    requires
        parse_spec(prev) matches Ok((None, _)),
    ensures
        resolve_spec(prev, chain) matches Ok((to_chain, to_post)) && to_chain == chain
            && parse_spec(prev) == Ok::<AddressView, Seq<char>>((None, to_post)),
{
}

/// What is no address: a text without `':'`, a text whose scheme is not `fchs`, and
/// a text in which a `':'` follows the scheme's at once, so that the chain would
/// have the empty name.
pub proof fn lemma_no_address(uri: Seq<char>)
    ensures
        colon_free(uri) ==> parse_spec(uri) is Err,
        first_colon(uri) matches Some(i) && uri.take(i) != "fchs"@ ==> parse_spec(uri) is Err,
        first_colon(uri) matches Some(i) && i + 1 < uri.len() && uri[i + 1] == ':' ==> parse_spec(
            uri,
        ) is Err,
{
    lemma_first_colon_none(uri);
    match first_colon(uri) {
        Some(i) => {
            if i + 1 < uri.len() && uri[i + 1] == ':' {
                let rest = uri.skip(i + 1);
                assert(rest[0] == ':');
            }
        },
        None => {},
    }
}

/// The characters of `s`, one by one.
fn chars_of(s: &str) -> (v: Vec<char>)
    ensures
        v@ == s@,
{
    let mut v: Vec<char> = Vec::new();
    for c in it: s.chars()
        invariant
            v@ == it.seq().take(it.index() as int),
            it.seq() == s@,
    {
        v.push(c);
    }
    v
}

/// The index of the first `':'` of `text` at or after `from`, or `text.len()` where
/// there is none.
fn find_colon(text: &Vec<char>, from: usize) -> (i: usize)
    requires
        from <= text.len(),
    ensures
        from <= i <= text.len(),
        i < text.len() ==> text[i as int] == ':',
        forall|k: int| from <= k < i ==> text[k] != ':',
{
    let mut i: usize = from;
    while i < text.len() && text[i] != ':'
        invariant
            from <= i <= text.len(),
            forall|k: int| from <= k < i ==> text[k] != ':',
        decreases text.len() - i,
    {
        i += 1;
    }
    i
}

/// The index of the last `':'` of `text`, which holds one at `known`.
fn find_last_colon(text: &Vec<char>, known: usize) -> (i: usize)
    requires
        known < text.len(),
        text[known as int] == ':',
    ensures
        known <= i < text.len(),
        text[i as int] == ':',
        forall|k: int| i < k < text.len() ==> text[k] != ':',
{
    let mut i: usize = text.len() - 1;
    while text[i] != ':'
        invariant
            known <= i < text.len(),
            text[known as int] == ':',
            forall|k: int| i < k < text.len() ==> text[k] != ':',
        decreases i,
    {
        i -= 1;
    }
    i
}

/// Reads an address.
///
/// Succeeds on `fchs:<post>` and on `fchs:<chain>:<post>`; where more than one `':'`
/// follows the scheme, the chain ends at the first and the post begins after the
/// last. Fails where the text has no `':'`, where the scheme is not `fchs`, and where
/// the chain is named but empty.
pub fn parse_uri(uri: &str) -> (r: Result<(Option<String>, String), Error>)
    ensures
        match parse_spec(uri@) {
            Ok((chain, post)) => r matches Ok((c, p)) && optional_text(c) == chain && p@ == post,
            Err(why) => r matches Err(e) && e@ == ErrorView::Input(why),
        },
{
    let text = chars_of(uri);
    let n: usize = text.len();
    let i: usize = find_colon(&text, 0);
    proof {
        lemma_first_colon_none(uri@);
        if i < n {
            assert(colon_free(uri@.take(i as int)));
            lemma_first_colon_at(uri@, i as int);
        }
    }
    if i == n {
        return Err(Error::InputError(String::from_str("no scheme specified on URI")));
    }
    proof {
        reveal_strlit("fchs");
    }
    if !(i == 4 && text[0] == 'f' && text[1] == 'c' && text[2] == 'h' && text[3] == 's') {
        assert(uri@.take(i as int) != "fchs"@) by {
            reveal_strlit("fchs");
            let scheme = uri@.take(i as int);
            if i == 4 {
                assert(scheme[0] == text[0] && scheme[1] == text[1]);
                assert(scheme[2] == text[2] && scheme[3] == text[3]);
                assert(scheme[0] != "fchs"@[0] || scheme[1] != "fchs"@[1] || scheme[2]
                    != "fchs"@[2] || scheme[3] != "fchs"@[3]);
            } else {
                assert(scheme.len() != "fchs"@.len());
            }
        }
        return Err(Error::InputError(String::from_str("invalid URI scheme")));
    }
    assert(uri@.take(i as int) =~= "fchs"@);
    let ghost rest = uri@.skip(i as int + 1);
    let j: usize = find_colon(&text, i + 1);
    proof {
        lemma_first_colon_none(rest);
        if j < n {
            assert(rest[j - i - 1] == ':');
            assert(colon_free(rest.take(j - i - 1)));
            lemma_first_colon_at(rest, j - i - 1);
        } else {
            assert(colon_free(rest));
        }
    }
    if j == n {
        let post = uri.substring_char(i + 1, n);
        assert(post@ =~= rest);
        return Ok((None, String::from_str(post)));
    }
    if j == i + 1 {
        return Err(
            Error::InputError(
                String::from_str("invalid 'fchs' URI format, missing chain name"),
            ),
        );
    }
    let k: usize = find_last_colon(&text, j);
    proof {
        assert(rest[k - i - 1] == ':');
        assert(colon_free(rest.skip(k - i)));
        lemma_last_colon_at(rest, k - i - 1);
    }
    let chain = uri.substring_char(i + 1, j);
    let post = uri.substring_char(k + 1, n);
    assert(chain@ =~= rest.take(j - i - 1));
    assert(post@ =~= rest.skip(k - i));
    Ok((Some(String::from_str(chain)), String::from_str(post)))
}

/// Writes an address: `fchs:<post>` without a chain, `fchs:<chain>:<post>` with one.
pub fn render_uri(chain: Option<&str>, post: &str) -> (uri: String)
    ensures
        uri@ == render_spec(
            match chain {
                Some(c) => Some(c@),
                None => None,
            },
            post@,
        ),
{
    match chain {
        None => String::from_str("fchs:").concat(post),
        Some(chain) => String::from_str("fchs:").concat(chain).concat(":").concat(post),
    }
}

/// Follows the link `prev` found in a block of `chain`: the chain and the post of the
/// block it points to. A link that names no chain points into `chain` itself.
pub fn resolve_link(prev: &str, chain: &str) -> (r: Result<(String, String), Error>)
    ensures
        match resolve_spec(prev@, chain@) {
            Ok((to_chain, to_post)) => r matches Ok((c, p)) && c@ == to_chain && p@ == to_post,
            Err(why) => r matches Err(e) && e@ == ErrorView::Input(why),
        },
{
    match parse_uri(prev) {
        Ok((Some(named), post)) => Ok((named, post)),
        Ok((None, post)) => Ok((String::from_str(chain), post)),
        Err(e) => Err(e),
    }
}

} // verus!
