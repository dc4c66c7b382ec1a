use shell_quote::{QuoteRefExt, Sh};
use vstd::prelude::*;

verus! {

/// The `/bin/sh`-safe form of a word, as produced by shell-quote's `Sh`.
pub uninterp spec fn sh_quoted(s: Seq<char>) -> Seq<char>;

/// Relies on shell-quote's `QuoteRefExt::quoted` with `Sh`: the quoted bytes of `s`,
/// which depend on `s` alone. `Sh` keeps the bytes of `s` in order and adds only ASCII
/// quotes and backslashes, so the bytes read back as text without loss.
#[verifier::external_body]
pub(crate) fn sh_quote(s: &str) -> (r: String)
    ensures
        r@ == sh_quoted(s@),
{
    let bytes: Vec<u8> = s.quoted(Sh);
    String::from_utf8_lossy(&bytes).into_owned()
}

/// A word, in literal double quotes when `wrap` is set.
pub open spec fn wrap_if(w: Seq<char>, wrap: bool) -> Seq<char> {
    if wrap {
        seq!['"'] + w + seq!['"']
    } else {
        w
    }
}

/// The words, each wrapped when `wrap` is set, joined by single spaces.
pub open spec fn joined_words(ws: Seq<Seq<char>>, wrap: bool) -> Seq<char>
    decreases ws.len(),
{
    if ws.len() == 0 {
        Seq::empty()
    } else if ws.len() == 1 {
        wrap_if(ws[0], wrap)
    } else {
        joined_words(ws.drop_last(), wrap) + seq![' '] + wrap_if(ws.last(), wrap)
    }
}

/// Joins already escaped words by single spaces, each in double quotes when `wrap` is set.
pub fn join_words(words: &Vec<String>, wrap: bool) -> (r: String)
    ensures
        r@ == joined_words(crate::config::texts(words@), wrap),
{
    let ghost ws = crate::config::texts(words@);
    let mut out = String::new();
    let mut i: usize = 0;
    while i < words.len()
        invariant
            i <= words.len(),
            ws == crate::config::texts(words@),
            out@ == joined_words(ws.take(i as int), wrap),
        decreases words.len() - i,
    {
        proof {
            reveal_strlit(" ");
            reveal_strlit("\"");
        }
        if i > 0 {
            out.append(" ");
        }
        if wrap {
            out.append("\"");
        }
        out.append(words[i].as_str());
        if wrap {
            out.append("\"");
        }
        proof {
            assert(ws.take(i as int + 1).drop_last() =~= ws.take(i as int));
            assert(ws.take(i as int + 1).last() == words@[i as int]@);
            if i == 0 {
                assert(out@ =~= wrap_if(ws.take(1)[0], wrap));
            } else {
                assert(out@ =~= joined_words(ws.take(i as int), wrap) + seq![' '] + wrap_if(
                    ws.take(i as int + 1).last(),
                    wrap,
                ));
            }
        }
        i += 1;
    }
    proof {
        assert(ws.take(words.len() as int) =~= ws);
    }
    out
}

/// Each word in its shell-quoted form.
pub open spec fn quoted_all(ws: Seq<Seq<char>>) -> Seq<Seq<char>> {
    ws.map_values(|w: Seq<char>| sh_quoted(w))
}

/// Shell-quotes each word from position `from` on, keeping their order.
pub fn quote_words(words: &Vec<String>, from: usize) -> (r: Vec<String>)
    requires
        from <= words@.len(),
    ensures
        crate::config::texts(r@) == quoted_all(crate::config::texts(words@).skip(from as int)),
{
    let ghost ws = quoted_all(crate::config::texts(words@).skip(from as int));
    let mut out: Vec<String> = Vec::new();
    let mut i: usize = from;
    while i < words.len()
        invariant
            from <= i <= words.len(),
            ws == quoted_all(crate::config::texts(words@).skip(from as int)),
            crate::config::texts(out@) == ws.take(i - from),
        decreases words.len() - i,
    {
        let q = sh_quote(words[i].as_str());
        let ghost prev = out@;
        out.push(q);
        proof {
            assert(crate::config::texts(words@).skip(from as int)[i - from] == words@[i as int]@);
            assert(crate::config::texts(out@) =~= crate::config::texts(prev).push(q@));
            assert(crate::config::texts(out@) =~= ws.take(i - from + 1));
        }
        i += 1;
    }
    proof {
        assert(ws.take(words.len() - from) =~= ws);
    }
    out
}

} // verus!
