//! Finding the session key among the cookies that a request carries.
use vstd::prelude::*;

verus! {

/// The name of the cookie that holds a login session's key.
pub open spec fn session_cookie_name() -> Seq<char> {
    "session-key"@
}

/// The name and value that `cookie::Cookie::parse` reads from one cookie
/// text, or `None` where it reports an error.
pub uninterp spec fn cookie_pair(text: Seq<char>) -> Option<(Seq<char>, Seq<char>)>;

/// Relies on `cookie::Cookie::parse`, with `Cookie::name` and
/// `Cookie::value`: the name and value of the cookie written in `text`.
#[verifier::external_body]
fn parse_cookie(text: &str) -> (r: Option<(String, String)>)
    ensures
        match r {
            Some((name, value)) => cookie_pair(text@) == Some((name@, value@)),
            None => cookie_pair(text@) is None,
        },
{
    match cookie::Cookie::parse(text) {
        Ok(c) => Some((c.name().to_owned(), c.value().to_owned())),
        Err(_) => None,
    }
}

/// The pieces of `s` between its `;` separators, in order; text without a
/// separator is one piece, and an empty text one empty piece.
pub open spec fn split_at_semicolons(s: Seq<char>) -> Seq<Seq<char>>
    decreases s.len(),
{
    if s.len() == 0 {
        seq![Seq::empty()]
    } else if s.last() == ';' {
        split_at_semicolons(s.drop_last()).push(Seq::empty())
    } else {
        let pieces = split_at_semicolons(s.drop_last());
        pieces.update(pieces.len() - 1, pieces.last().push(s.last()))
    }
}

proof fn lemma_split_nonempty(s: Seq<char>)
    ensures
        split_at_semicolons(s).len() >= 1,
    decreases s.len(),
{
    if s.len() > 0 {
        lemma_split_nonempty(s.drop_last());
    }
}

/// The texts of `pieces`.
pub open spec fn texts(pieces: Seq<String>) -> Seq<Seq<char>> {
    pieces.map_values(|p: String| p@)
}

/// Splits a `Cookie` header value at each `;`.
pub fn split_cookie_header(header: &str) -> (r: Vec<String>)
    ensures
        texts(r@) == split_at_semicolons(header@),
{
    let ghost s = header@;
    let n = header.unicode_len();
    let mut pieces: Vec<String> = Vec::new();
    let mut start: usize = 0;
    let mut k: usize = 0;
    proof {
        assert(s.take(0) =~= Seq::<char>::empty());
        assert(texts(pieces@).push(s.subrange(0, 0)) =~= seq![Seq::<char>::empty()]);
    }
    while k < n
        invariant
            s == header@,
            n == s.len(),
            start <= k <= n,
            texts(pieces@).push(s.subrange(start as int, k as int)) == split_at_semicolons(
                s.take(k as int),
            ),
        decreases n - k,
    {
        let c = header.get_char(k);
        proof {
            assert(s.take(k + 1).drop_last() =~= s.take(k as int));
            assert(s.take(k + 1).last() == c);
            lemma_split_nonempty(s.take(k as int));
        }
        let ghost old_pieces = pieces@;
        let ghost before = split_at_semicolons(s.take(k as int));
        if c == ';' {
            let piece = header.substring_char(start, k).to_owned();
            pieces.push(piece);
            proof {
                assert(texts(pieces@) =~= texts(old_pieces).push(s.subrange(start as int, k as int)));
                assert(texts(pieces@) == before);
                assert(s.subrange(k + 1, k + 1) =~= Seq::<char>::empty());
            }
            start = k + 1;
        } else {
            proof {
                let t = texts(old_pieces);
                assert(before =~= t.push(s.subrange(start as int, k as int)));
                assert(s.subrange(start as int, k + 1) =~= s.subrange(start as int, k as int).push(c));
                assert(t.push(s.subrange(start as int, k + 1)) =~= before.update(
                    before.len() - 1,
                    before.last().push(c),
                ));
            }
        }
        k = k + 1;
    }
    let last = header.substring_char(start, n).to_owned();
    pieces.push(last);
    proof {
        assert(s.take(n as int) =~= s);
        assert(texts(pieces@) =~= split_at_semicolons(s));
    }
    pieces
}

/// The session key found by reading cookies in order: the value of the first
/// cookie named `session-key`, unless a cookie that cannot be read comes
/// before it.
pub open spec fn session_key_of(cookies: Seq<Option<(Seq<char>, Seq<char>)>>) -> Option<
    Seq<char>,
>
    decreases cookies.len(),
{
    if cookies.len() == 0 {
        None
    } else {
        match cookies[0] {
            None => None,
            Some((name, value)) => if name == session_cookie_name() {
                Some(value)
            } else {
                session_key_of(cookies.drop_first())
            },
        }
    }
}

/// The name and value texts of read cookies.
pub open spec fn cookie_texts(cookies: Seq<Option<(String, String)>>) -> Seq<
    Option<(Seq<char>, Seq<char>)>,
> {
    cookies.map_values(
        |c: Option<(String, String)>|
            match c {
                Some((name, value)) => Some((name@, value@)),
                None => None,
            },
    )
}

/// The session key among cookies already read (`None` for one that could
/// not be read), as `session_key_of` describes.
pub fn session_key_in(cookies: &Vec<Option<(String, String)>>) -> (r: Option<String>)
    ensures
        match r {
            Some(key) => session_key_of(cookie_texts(cookies@)) == Some(key@),
            None => session_key_of(cookie_texts(cookies@)) is None,
        },
{
    let ghost all = cookie_texts(cookies@);
    let key_name = "session-key".to_owned();
    let n = cookies.len();
    let mut i: usize = 0;
    proof {
        assert(all.skip(0) =~= all);
    }
    while i < n
        invariant
            n == cookies@.len(),
            all == cookie_texts(cookies@),
            key_name@ == session_cookie_name(),
            i <= n,
            session_key_of(all) == session_key_of(all.skip(i as int)),
        decreases n - i,
    {
        proof {
            assert(all.skip(i as int).drop_first() =~= all.skip(i + 1));
            assert(all.skip(i as int)[0] == all[i as int]);
        }
        match &cookies[i] {
            None => {
                return None;
            },
            Some((name, value)) => {
                if *name == key_name {
                    return Some(value.clone());
                }
            },
        }
        i = i + 1;
    }
    None
}

/// The session key carried by a `Cookie` header value: its pieces are read
/// as cookies in order, and the first named `session-key` gives the key,
/// unless a piece that is not a cookie comes before it.
pub fn session_key_from_header(header: &str) -> (r: Option<String>)
    ensures
        match r {
            Some(key) => session_key_of(split_at_semicolons(header@).map_values(
                |t: Seq<char>| cookie_pair(t),
            )) == Some(key@),
            None => session_key_of(
                split_at_semicolons(header@).map_values(|t: Seq<char>| cookie_pair(t)),
            ) is None,
        },
{
    let pieces = split_cookie_header(header);
    let mut cookies: Vec<Option<(String, String)>> = Vec::new();
    let n = pieces.len();
    let mut i: usize = 0;
    while i < n
        invariant
            n == pieces@.len(),
            i <= n,
            cookies@.len() == i,
            forall|j: int|
                0 <= j < i ==> #[trigger] cookie_texts(cookies@)[j] == cookie_pair(pieces@[j]@),
        decreases n - i,
    {
        let c = parse_cookie(pieces[i].as_str());
        let ghost before = cookies@;
        cookies.push(c);
        proof {
            assert forall|j: int| 0 <= j < i + 1 implies #[trigger] cookie_texts(cookies@)[j]
                == cookie_pair(pieces@[j]@) by {
                if j < i {
                    assert(cookies@[j] == before[j]);
                    assert(cookie_texts(before)[j] == cookie_pair(pieces@[j]@));
                }
            }
        }
        i = i + 1;
    }
    proof {
        assert(cookie_texts(cookies@) =~= texts(pieces@).map_values(
            |t: Seq<char>| cookie_pair(t),
        ));
    }
    session_key_in(&cookies)
}

} // verus!
