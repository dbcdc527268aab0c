//! Laws of what a parsed line holds of the text that was written.

use crate::card::{spec_param, PropertyModel};
use crate::decode::{
    spec_decode_quoted_printable, spec_decode_value, spec_fix_mojibake, spec_unescape,
};
use crate::laws::cards::{is_writable, law_line_reads_back, write_line};
use crate::laws::values::{escape, law_escapes_read_back, law_quoted_text_reads_back, quote_text};
use crate::outside::{ascii_lower, ascii_upper};
use crate::parse::{
    canonical, spec_parse_line, spec_split_line, split_param, LineModel,
};
use crate::text::{
    lemma_find, lemma_split_len, spec_eq_ignore_case, spec_find, spec_split, spec_upper,
};
use vstd::prelude::*;
use vstd::utf8::is_ascii_chars;

verus! {

/// Two texts are the same but for the case of ASCII letters exactly if they
/// are equally long and in each place hold the same character, or the upper
/// and the lower case of one of the letters `a` to `z`.
pub proof fn law_ignoring_case(a: Seq<char>, b: Seq<char>)
    ensures
        spec_eq_ignore_case(a, b) <==> {
            &&& a.len() == b.len()
            &&& forall|i: int|
                0 <= i < a.len() ==> {
                    ||| #[trigger] a[i] == b[i]
                    ||| 'a' <= a[i] <= 'z' && b[i] as int == a[i] as int - 32
                    ||| 'a' <= b[i] <= 'z' && a[i] as int == b[i] as int - 32
                }
        },
{
    let x = a.map_values(|c: char| ascii_lower(c));
    let y = b.map_values(|c: char| ascii_lower(c));
    if x == y {
        assert(x.len() == a.len() && y.len() == b.len());
        assert forall|i: int| 0 <= i < a.len() implies {
            ||| #[trigger] a[i] == b[i]
            ||| 'a' <= a[i] <= 'z' && b[i] as int == a[i] as int - 32
            ||| 'a' <= b[i] <= 'z' && a[i] as int == b[i] as int - 32
        } by {
            assert(x[i] == y[i]);
            lemma_case_pair(a[i], b[i]);
        }
    }
    if a.len() == b.len() && forall|i: int|
        0 <= i < a.len() ==> {
            ||| #[trigger] a[i] == b[i]
            ||| 'a' <= a[i] <= 'z' && b[i] as int == a[i] as int - 32
            ||| 'a' <= b[i] <= 'z' && a[i] as int == b[i] as int - 32
        } {
        assert forall|i: int| 0 <= i < x.len() implies x[i] == y[i] by {
            assert(a[i] == a[i]);
            lemma_case_pair(a[i], b[i]);
        }
        assert(x =~= y);
    }
}

proof fn lemma_case_pair(a: char, b: char)
    ensures
        ascii_lower(a) == ascii_lower(b) <==> {
            ||| a == b
            ||| 'a' <= a <= 'z' && b as int == a as int - 32
            ||| 'a' <= b <= 'z' && a as int == b as int - 32
        },
{
}

/// Whether a parameter holds what a piece of a line says: behind the first
/// equals sign the text, whole, and before it the key, in upper case; or the
/// whole piece as a `TYPE` where it has no equals sign.
pub open spec fn holds_piece(param: (Seq<char>, Seq<char>), piece: Seq<char>) -> bool {
    ||| exists|e: int|
        #![trigger piece[e]]
        0 <= e < piece.len() && piece[e] == '=' && !piece.take(e).contains('=') && param.0
            == spec_upper(piece.take(e)) && param.1 == piece.skip(e + 1)
    ||| !piece.contains('=') && param.0 == "TYPE"@ && param.1 == piece
}

/// A parsed line keeps what was written. Its value is all that stands behind
/// the first colon. It has one parameter for each piece between semicolons
/// behind the name, in their order, and no text of a parameter is altered or
/// shortened.
pub proof fn law_parameters_kept(line: Seq<char>, colon: int)
    requires
        0 <= colon < line.len(),
        line[colon] == ':',
        !line.take(colon).contains(':'),
    ensures
        spec_parse_line(line) is Some,
        spec_parse_line(line)->0.value == line.skip(colon + 1),
        spec_parse_line(line)->0.params.len() + 1 == spec_split(line.take(colon), ';').len(),
        forall|i: int|
            0 <= i < spec_parse_line(line)->0.params.len() ==> holds_piece(
                #[trigger] spec_parse_line(line)->0.params[i],
                spec_split(line.take(colon), ';')[i + 1],
            ),
{
    let head = line.take(colon);
    assert forall|j: int| 0 <= j < colon implies line[j] != ':' by {
        assert(head[j] == line[j]);
        assert(head.contains(head[j]));
    }
    lemma_first(line, ':', colon);
    let pieces = spec_split(head, ';');
    lemma_split_len(head, ';');
    let p = spec_parse_line(line)->0;
    let parts = spec_split_line(line)->0;
    assert(parts.params.len() == pieces.len() - 1);
    assert(p.params.len() == parts.params.len());
    assert forall|i: int| 0 <= i < p.params.len() implies holds_piece(
        #[trigger] p.params[i],
        pieces[i + 1],
    ) by {
        let piece = pieces[i + 1];
        assert(pieces.skip(1)[i] == piece);
        assert(parts.params[i] == split_param(piece));
        lemma_find(piece, '=');
        let e = spec_find(piece, '=');
        if e < piece.len() {
            assert(piece[e] == '=');
        } else {
            assert(!piece.contains('='));
        }
    }
}

proof fn lemma_first(s: Seq<char>, c: char, i: int)
    requires
        0 <= i < s.len(),
        s[i] == c,
        forall|j: int| 0 <= j < i ==> s[j] != c,
    ensures
        spec_find(s, c) == i,
{
    lemma_find(s, c);
}

/// The name of a parsed line is what stands before the first semicolon and
/// colon, without a group in front, in upper case.
pub proof fn law_name_kept(group: Option<Seq<char>>, name: Seq<char>, rest: Seq<char>)
    requires
        !name.contains(';') && !name.contains(':'),
        group matches Some(g) ==> !g.contains(';') && !g.contains(':') && !g.contains('.'),
        group is None ==> !name.contains('.'),
        rest.len() > 0,
        rest[0] == ';' || rest[0] == ':',
        rest.contains(':'),
    ensures
        ({
            let front = match group {
                Some(g) => g + seq!['.'] + name,
                None => name,
            };
            spec_parse_line(front + rest) matches Some(p) && p.name == spec_upper(name)
        }),
{
    let front = match group {
        Some(g) => g + seq!['.'] + name,
        None => name,
    };
    let line = front + rest;
    assert forall|k: int| 0 <= k < front.len() implies front[k] != ';' && front[k] != ':' by {
        match group {
            Some(g) => {
                if k < g.len() {
                    assert(g.contains(g[k]));
                } else if k > g.len() {
                    assert(name.contains(name[k - g.len() - 1]));
                }
            },
            None => {
                assert(name.contains(name[k]));
            },
        }
    }
    lemma_find(line, ':');
    let c = spec_find(line, ':');
    let r = choose|r: int| 0 <= r < rest.len() && rest[r] == ':';
    assert(line[front.len() + r] == ':');
    assert(c < line.len());
    assert(c >= front.len()) by {
        if c < front.len() {
            assert(line[c] == front[c]);
        }
    }
    let head = line.take(c);
    lemma_find(head, ';');
    let s = spec_find(head, ';');
    assert(s == front.len() || (s == head.len() && c == front.len())) by {
        if s < front.len() {
            assert(head[s] == front[s]);
        }
        if c > front.len() {
            assert(head[front.len() as int] == rest[0]);
            assert(rest[0] == ';');
        }
    }
    assert(head.take(front.len() as int) =~= front);
    if s >= head.len() {
        assert(head =~= front);
    }
    assert(spec_split(head, ';')[0] == front);
    lemma_find(front, '.');
    match group {
        Some(g) => {
            assert forall|k: int| 0 <= k < g.len() implies front[k] != '.' by {
                assert(g.contains(g[k]));
            }
            assert(front[g.len() as int] == '.');
            lemma_first(front, '.', g.len() as int);
            assert(front.skip(g.len() as int + 1) =~= name);
        },
        None => {
            if spec_find(front, '.') < front.len() {
                assert(name.contains(name[spec_find(front, '.')]));
            }
        },
    }
}

/// Whether a parameter stands in a place and is the first with its key.
pub open spec fn is_first_with(params: Seq<(Seq<char>, Seq<char>)>, i: int, key: Seq<char>) -> bool {
    &&& 0 <= i < params.len()
    &&& spec_eq_ignore_case(params[i].0, key)
    &&& forall|j: int| 0 <= j < i ==> !spec_eq_ignore_case((#[trigger] params[j]).0, key)
}

/// The value of a parameter is that of the first one with its key, whatever
/// others stand before and behind it. There is none exactly if no key fits.
pub proof fn law_param_is_first(params: Seq<(Seq<char>, Seq<char>)>, key: Seq<char>)
    ensures
        forall|i: int|
            #[trigger] is_first_with(params, i, key) ==> spec_param(params, key) == Some(params[i].1),
        (forall|j: int|
            0 <= j < params.len() ==> !spec_eq_ignore_case((#[trigger] params[j]).0, key)) <==> spec_param(
            params,
            key,
        ) is None,
    decreases params.len(),
{
    if params.len() > 0 {
        let rest = params.skip(1);
        law_param_is_first(rest, key);
        assert forall|i: int| #[trigger] is_first_with(params, i, key) implies spec_param(
            params,
            key,
        ) == Some(params[i].1) by {
            if i > 0 {
                assert(!spec_eq_ignore_case(params[0].0, key));
                assert(rest[i - 1] == params[i]);
                assert forall|j: int| 0 <= j < i - 1 implies !spec_eq_ignore_case(
                    (#[trigger] rest[j]).0,
                    key,
                ) by {
                    assert(rest[j] == params[j + 1]);
                }
                assert(is_first_with(rest, i - 1, key));
            }
        }
        if spec_param(params, key) is None {
            assert forall|j: int| 0 <= j < params.len() implies !spec_eq_ignore_case(
                (#[trigger] params[j]).0,
                key,
            ) by {
                if j > 0 {
                    assert(rest[j - 1] == params[j]);
                }
            }
        }
        if forall|j: int|
            0 <= j < params.len() ==> !spec_eq_ignore_case((#[trigger] params[j]).0, key) {
            assert(!spec_eq_ignore_case(params[0].0, key));
            assert forall|j: int| 0 <= j < rest.len() implies !spec_eq_ignore_case(
                (#[trigger] rest[j]).0,
                key,
            ) by {
                assert(rest[j] == params[j + 1]);
            }
        }
    }
}

/// A value is read as quoted-printable exactly if the first `ENCODING` among
/// its parameters says so, wherever it stands and whatever others there are.
pub proof fn law_encoding_decides(p: PropertyModel)
    ensures
        forall|i: int|
            #[trigger] is_first_with(p.params, i, "ENCODING"@) ==> spec_decode_value(p)
                == spec_unescape(
                if spec_eq_ignore_case(p.params[i].1, "QUOTED-PRINTABLE"@) {
                    spec_decode_quoted_printable(p.value)
                } else {
                    spec_fix_mojibake(p.value)
                },
            ),
        (forall|j: int|
            0 <= j < p.params.len() ==> !spec_eq_ignore_case(
                (#[trigger] p.params[j]).0,
                "ENCODING"@,
            )) ==> spec_decode_value(p) == spec_unescape(spec_fix_mojibake(p.value)),
{
    law_param_is_first(p.params, "ENCODING"@);
}

/// Whether a parameter as it is written has a key, up to the case of letters.
pub open spec fn has_key(p: (Option<Seq<char>>, Seq<char>), key: Seq<char>) -> bool {
    p.0 matches Some(k) && spec_eq_ignore_case(k, key)
}

proof fn lemma_upper_keeps(s: Seq<char>, t: Seq<char>)
    requires
        is_ascii_chars(s),
    ensures
        spec_eq_ignore_case(spec_upper(s), t) <==> spec_eq_ignore_case(s, t),
{
    let u = spec_upper(s);
    let a = s.map_values(|c: char| ascii_lower(c));
    let b = u.map_values(|c: char| ascii_lower(c));
    assert(u =~= s.map_values(|c: char| ascii_upper(c)));
    assert(a =~= b);
}

/// A line whose first `ENCODING` parameter says quoted-printable, wherever
/// that stands among the parameters, means the text that was quoted in it.
pub proof fn law_quoted_line_reads_back(parts: LineModel, i: int, s: Seq<char>)
    requires
        is_writable(parts),
        0 <= i < parts.params.len(),
        has_key(parts.params[i], "ENCODING"@),
        spec_eq_ignore_case(parts.params[i].1, "QUOTED-PRINTABLE"@),
        forall|j: int| 0 <= j < i ==> !has_key(#[trigger] parts.params[j], "ENCODING"@),
        forall|j: int|
            0 <= j <= i ==> ((#[trigger] parts.params[j]).0 matches Some(k) ==> is_ascii_chars(k)),
        parts.value == quote_text(escape(s)),
    ensures
        spec_parse_line(write_line(parts)) matches Some(p) && spec_decode_value(p) == s,
{
    law_line_reads_back(parts);
    law_escapes_read_back(s);
    law_quoted_text_reads_back(escape(s));
    let p = canonical(parts);
    law_encoding_decides(p);
    reveal_strlit("TYPE");
    reveal_strlit("ENCODING");
    assert forall|j: int| 0 <= j <= i implies (spec_eq_ignore_case(
        (#[trigger] p.params[j]).0,
        "ENCODING"@,
    ) <==> has_key(parts.params[j], "ENCODING"@)) by {
        match parts.params[j].0 {
            Some(k) => {
                lemma_upper_keeps(k, "ENCODING"@);
            },
            None => {
                law_ignoring_case("TYPE"@, "ENCODING"@);
            },
        }
    }
    assert(is_first_with(p.params, i, "ENCODING"@));
}

/// The upper case of an ASCII text differs from it in the letters `a` to `z`
/// alone. That of any other text is the one of Unicode.
pub proof fn law_upper(s: Seq<char>)
    ensures
        is_ascii_chars(s) ==> {
            &&& spec_upper(s).len() == s.len()
            &&& forall|i: int|
                0 <= i < s.len() ==> #[trigger] spec_upper(s)[i] as int == (if 'a' <= s[i] <= 'z' {
                    s[i] as int - 32
                } else {
                    s[i] as int
                })
        },
        !is_ascii_chars(s) ==> spec_upper(s) == crate::outside::uppercase(s),
{
}

} // verus!
