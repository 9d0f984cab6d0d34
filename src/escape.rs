//! Escaping of the characters that separate the parts of a query URL, so that any key or value
//! survives being written into a URL and read back.

use vstd::prelude::*;
use vstd::string::{StrSliceExecFns, StringExecFns};

verus! {

/// How a character is written in a query: `%`, `&`, `=` and `?` as `%25`, `%26`, `%3D` and `%3F`,
/// every other character as itself.
pub open spec fn escape_of(c: char) -> Seq<char> {
    if c == '%' {
        seq!['%', '2', '5']
    } else if c == '&' {
        seq!['%', '2', '6']
    } else if c == '=' {
        seq!['%', '3', 'D']
    } else if c == '?' {
        seq!['%', '3', 'F']
    } else {
        seq![c]
    }
}

/// A text as written in a query.
pub open spec fn escape(s: Seq<char>) -> Seq<char>
    decreases s.len(),
{
    if s.len() == 0 {
        Seq::empty()
    } else {
        escape_of(s[0]) + escape(s.drop_first())
    }
}

/// The character that the escape `%ab` stands for, if it is one of the four.
pub open spec fn escaped_char(a: char, b: char) -> Option<char> {
    if a == '2' && b == '5' {
        Some('%')
    } else if a == '2' && b == '6' {
        Some('&')
    } else if a == '3' && b == 'D' {
        Some('=')
    } else if a == '3' && b == 'F' {
        Some('?')
    } else {
        None
    }
}

/// A text read back from a query: each of the four escapes becomes its character, everything
/// else stays as it is.
pub open spec fn unescape(s: Seq<char>) -> Seq<char>
    decreases s.len(),
{
    if s.len() == 0 {
        Seq::empty()
    } else if s[0] == '%' && s.len() >= 3 && escaped_char(s[1], s[2]) is Some {
        seq![escaped_char(s[1], s[2])->0] + unescape(s.subrange(3, s.len() as int))
    } else {
        seq![s[0]] + unescape(s.drop_first())
    }
}

/// Reading back an escaped text gives the text.
pub proof fn lemma_unescape_escape(s: Seq<char>)
    ensures
        unescape(escape(s)) == s,
    decreases s.len(),
{
    if s.len() > 0 {
        let c = s[0];
        let rest = escape(s.drop_first());
        lemma_unescape_escape(s.drop_first());
        let e = escape_of(c) + rest;
        if c == '%' || c == '&' || c == '=' || c == '?' {
            assert(e.subrange(3, e.len() as int) =~= rest);
        } else {
            assert(e.drop_first() =~= rest);
        }
        assert(unescape(e) =~= s);
    }
}

/// An escaped text holds none of `?`, `&` and `=`.
pub proof fn lemma_escape_plain(s: Seq<char>)
    ensures
        forall|i: int|
            0 <= i < escape(s).len() ==> escape(s)[i] != '?' && escape(s)[i] != '&' && escape(s)[i]
                != '=',
    decreases s.len(),
{
    if s.len() > 0 {
        lemma_escape_plain(s.drop_first());
        let head = escape_of(s[0]);
        let rest = escape(s.drop_first());
        assert forall|i: int| 0 <= i < escape(s).len() implies escape(s)[i] != '?' && escape(s)[i]
            != '&' && escape(s)[i] != '=' by {
            if i >= head.len() {
                assert(escape(s)[i] == rest[i - head.len()]);
            }
        }
    }
}

fn escape_str_of(c: char) -> (r: &'static str)
    requires
        c == '%' || c == '&' || c == '=' || c == '?',
    ensures
        r@ == escape_of(c),
{
    proof {
        reveal_strlit("%25");
        reveal_strlit("%26");
        reveal_strlit("%3D");
        reveal_strlit("%3F");
    }
    if c == '%' {
        "%25"
    } else if c == '&' {
        "%26"
    } else if c == '=' {
        "%3D"
    } else {
        "%3F"
    }
}

/// Write a text as it goes into a query.
pub fn escape_text(s: &str) -> (r: String)
    ensures
        r@ == escape(s@),
{
    let n = s.unicode_len();
    let mut out = String::new();
    let mut i: usize = 0;
    proof {
        assert(s@.subrange(0, n as int) =~= s@);
    }
    while i < n
        invariant
            n == s@.len(),
            i <= n,
            out@ + escape(s@.subrange(i as int, n as int)) == escape(s@),
        decreases n - i,
    {
        let c = s.get_char(i);
        let ghost before = out@;
        let ghost tail = s@.subrange(i as int, n as int);
        proof {
            assert(tail[0] == c);
            assert(tail.drop_first() =~= s@.subrange(i + 1, n as int));
        }
        if c == '%' || c == '&' || c == '=' || c == '?' {
            out.append(escape_str_of(c));
        } else {
            out.append(s.substring_char(i, i + 1));
            proof {
                assert(s@.subrange(i as int, i + 1) =~= seq![c]);
            }
        }
        i = i + 1;
        proof {
            assert(out@ + escape(s@.subrange(i as int, n as int)) =~= before + escape(tail));
        }
    }
    proof {
        assert(s@.subrange(n as int, n as int) =~= Seq::<char>::empty());
        assert(out@ + Seq::<char>::empty() =~= out@);
    }
    out
}

/// Read a text back from a query.
pub fn unescape_text(s: &str) -> (r: String)
    ensures
        r@ == unescape(s@),
{
    let n = s.unicode_len();
    let mut out = String::new();
    let mut i: usize = 0;
    proof {
        reveal_strlit("%");
        reveal_strlit("&");
        reveal_strlit("=");
        reveal_strlit("?");
        assert(s@.subrange(0, n as int) =~= s@);
    }
    while i < n
        invariant
            n == s@.len(),
            i <= n,
            out@ + unescape(s@.subrange(i as int, n as int)) == unescape(s@),
        decreases n - i,
    {
        let c = s.get_char(i);
        let ghost before = out@;
        let ghost tail = s@.subrange(i as int, n as int);
        proof {
            reveal_strlit("%");
            reveal_strlit("&");
            reveal_strlit("=");
            reveal_strlit("?");
            assert(tail[0] == c);
        }
        let mut step: usize = 1;
        if c == '%' && n - i > 2 {
            let a = s.get_char(i + 1);
            let b = s.get_char(i + 2);
            proof {
                assert(tail[1] == a && tail[2] == b);
            }
            if a == '2' && b == '5' {
                out.append("%");
                step = 3;
            } else if a == '2' && b == '6' {
                out.append("&");
                step = 3;
            } else if a == '3' && b == 'D' {
                out.append("=");
                step = 3;
            } else if a == '3' && b == 'F' {
                out.append("?");
                step = 3;
            }
        }
        if step == 1 {
            out.append(s.substring_char(i, i + 1));
            proof {
                assert(s@.subrange(i as int, i + 1) =~= seq![c]);
                assert(tail.drop_first() =~= s@.subrange(i + 1, n as int));
            }
        } else {
            proof {
                assert(tail.subrange(3, tail.len() as int) =~= s@.subrange(i + 3, n as int));
            }
        }
        i = i + step;
        proof {
            assert(out@ + unescape(s@.subrange(i as int, n as int)) =~= before + unescape(tail));
        }
    }
    proof {
        assert(s@.subrange(n as int, n as int) =~= Seq::<char>::empty());
        assert(out@ + Seq::<char>::empty() =~= out@);
    }
    out
}

} // verus!
