use vstd::prelude::*;
use crate::number::{is_float_literal, parses_as_float};

verus! {

/// Characters that give a plain scalar a structural meaning.
pub open spec fn is_indicator(c: char) -> bool {
    c == ':' || c == '|' || c == '>' || c == '-' || c == '*' || c == '&' || c == '!' || c == '%'
        || c == '@' || c == '`' || c == '#' || c == '\n' || c == '\t' || c == '"' || c == '\''
        || c == '[' || c == ']' || c == '{' || c == '}' || c == '\r'
}

/// Words that a reader would take for a boolean or a null.
pub open spec fn is_reserved_word(s: Seq<char>) -> bool {
    s == "true"@ || s == "True"@ || s == "TRUE"@ || s == "false"@ || s == "False"@ || s
        == "FALSE"@ || s == "null"@ || s == "Null"@ || s == "NULL"@ || s == "~"@
}

/// Text that a reader could take for a number of its own notation: a leading
/// dot (`.inf`, `.nan`), `+.`, or a `0x` / `0o` / `0b` prefix.
pub open spec fn is_yaml_number_like(s: Seq<char>) -> bool {
    s.len() > 0 && (s[0] == '.' || (s.len() >= 2 && s[0] == '+' && s[1] == '.') || (s.len() >= 2
        && s[0] == '0' && (s[1] == 'x' || s[1] == 'o' || s[1] == 'b')))
}

/// Characters that a plain scalar cannot start with, besides the indicators
/// that may stand nowhere in one: a mapping key mark and a flow separator.
pub open spec fn is_start_indicator(c: char) -> bool {
    c == '?' || c == ','
}

/// Text that cannot stand as a plain scalar.
pub open spec fn needs_quoting(s: Seq<char>) -> bool {
    (exists|i: int| 0 <= i < s.len() && is_indicator(#[trigger] s[i])) || (s.len() > 0 && (s[0]
        == ' ' || s.last() == ' ' || is_start_indicator(s[0]))) || is_reserved_word(s)
        || is_float_literal(s) || is_yaml_number_like(s)
}

/// Some line of the text starts with a space, so a block scalar must state its
/// indentation rather than let the reader guess it from the first line.
pub open spec fn needs_indent_indicator(s: Seq<char>) -> bool {
    (s.len() > 0 && s[0] == ' ') || exists|i: int|
        0 <= i < s.len() - 1 && #[trigger] s[i] == '\n' && s[i + 1] == ' '
}

/// `s` with every `c` replaced by `rep`.
pub open spec fn expand(s: Seq<char>, c: char, rep: Seq<char>) -> Seq<char>
    decreases s.len(),
{
    if s.len() == 0 {
        seq![]
    } else {
        (if s[0] == c {
            rep
        } else {
            seq![s[0]]
        }) + expand(s.skip(1), c, rep)
    }
}

/// `t` with every `rep` read back as `c`, from left to right.
pub open spec fn collapse(t: Seq<char>, c: char, rep: Seq<char>) -> Seq<char>
    decreases t.len(),
{
    if t.len() == 0 {
        seq![]
    } else if rep.len() > 0 && t.len() >= rep.len() && t.subrange(0, rep.len() as int) == rep {
        seq![c] + collapse(t.skip(rep.len() as int), c, rep)
    } else {
        seq![t[0]] + collapse(t.skip(1), c, rep)
    }
}

pub open spec fn two_quotes() -> Seq<char> {
    seq!['\'', '\'']
}

pub open spec fn block_header() -> Seq<char> {
    seq!['|', '\n', ' ', ' ']
}

pub open spec fn indented_block_header() -> Seq<char> {
    seq!['|', '2', '\n', ' ', ' ']
}

pub open spec fn line_break_margin() -> Seq<char> {
    seq!['\n', ' ', ' ']
}

/// A single-quoted scalar: quotes around the text, inner quotes doubled.
pub open spec fn single_quoted(s: Seq<char>) -> Seq<char> {
    seq!['\''] + expand(s, '\'', two_quotes()) + seq!['\'']
}

/// A literal block scalar: the indicator (with the indentation stated when a
/// line starts with a space) on a line of its own, then each line of the text
/// under a margin of two spaces.
pub open spec fn literal_block(s: Seq<char>) -> Seq<char> {
    (if needs_indent_indicator(s) {
        indented_block_header()
    } else {
        block_header()
    }) + expand(s, '\n', line_break_margin())
}

/// The scalar token written for `s`.
pub open spec fn escaped(s: Seq<char>) -> Seq<char> {
    if s.len() == 0 {
        two_quotes()
    } else if !needs_quoting(s) {
        s
    } else if s.contains('\n') {
        literal_block(s)
    } else {
        single_quoted(s)
    }
}

/// The decoding that undoes `escaped`, form by form: the empty quoted scalar,
/// a literal block (header dropped, margin removed from each line, no final
/// line break added) and a single-quoted scalar (doubled quotes read as one);
/// any other token is taken as the text itself. It is the inverse of the
/// codec, not a full YAML reader.
pub open spec fn read_scalar(t: Seq<char>) -> Seq<char> {
    if t == two_quotes() {
        seq![]
    } else if t.len() >= 4 && t.subrange(0, 4) == block_header() {
        collapse(t.skip(4), '\n', line_break_margin())
    } else if t.len() >= 5 && t.subrange(0, 5) == indented_block_header() {
        collapse(t.skip(5), '\n', line_break_margin())
    } else if t.len() >= 2 && t[0] == '\'' && t.last() == '\'' {
        collapse(t.subrange(1, t.len() - 1), '\'', two_quotes())
    } else {
        t
    }
}

proof fn lemma_expand_append(a: Seq<char>, b: Seq<char>, c: char, rep: Seq<char>)
    ensures
        expand(a + b, c, rep) == expand(a, c, rep) + expand(b, c, rep),
    decreases a.len(),
{
    if a.len() == 0 {
        assert(a + b =~= b);
    } else {
        assert((a + b).skip(1) =~= a.skip(1) + b);
        lemma_expand_append(a.skip(1), b, c, rep);
    }
}

proof fn lemma_expand_one(x: char, c: char, rep: Seq<char>)
    ensures
        expand(seq![x], c, rep) == if x == c {
            rep
        } else {
            seq![x]
        },
{
    assert(seq![x].skip(1) =~= Seq::<char>::empty());
    assert(expand(Seq::<char>::empty(), c, rep) == Seq::<char>::empty());
    let piece = if x == c {
        rep
    } else {
        seq![x]
    };
    assert(piece + Seq::<char>::empty() =~= piece);
}

proof fn lemma_expand_len(s: Seq<char>, c: char, rep: Seq<char>)
    requires
        rep.len() > 0,
    ensures
        expand(s, c, rep).len() >= s.len(),
    decreases s.len(),
{
    if s.len() > 0 {
        lemma_expand_len(s.skip(1), c, rep);
    }
}

proof fn lemma_collapse_expand(s: Seq<char>, c: char, rep: Seq<char>)
    requires
        rep.len() > 0,
        rep[0] == c,
    ensures
        collapse(expand(s, c, rep), c, rep) == s,
    decreases s.len(),
{
    if s.len() > 0 {
        let rest = expand(s.skip(1), c, rep);
        lemma_collapse_expand(s.skip(1), c, rep);
        let t = expand(s, c, rep);
        if s[0] == c {
            assert(t == rep + rest);
            assert(t.subrange(0, rep.len() as int) =~= rep);
            assert(t.skip(rep.len() as int) =~= rest);
        } else {
            assert(t == seq![s[0]] + rest);
            assert(t.len() >= rep.len() ==> t.subrange(0, rep.len() as int)[0] != rep[0]);
            assert(t.skip(1) =~= rest);
        }
        assert(seq![s[0]] + s.skip(1) =~= s);
    }
}

/// Reading back the token that `escape_yaml_value` writes gives the text that
/// was escaped, whatever the text.
pub proof fn lemma_escape_round_trip(s: Seq<char>)
    ensures
        read_scalar(escaped(s)) == s,
{
    let t = escaped(s);
    if s.len() == 0 {
    } else if !needs_quoting(s) {
        assert(s != two_quotes()) by {
            if s == two_quotes() {
                assert(is_indicator(s[0]));
            }
        }
        assert(!(s.len() >= 4 && s.subrange(0, 4) == block_header())) by {
            if s.len() >= 4 && s.subrange(0, 4) == block_header() {
                assert(s.subrange(0, 4)[0] == '|');
                assert(is_indicator(s[0]));
            }
        }
        assert(!(s.len() >= 5 && s.subrange(0, 5) == indented_block_header())) by {
            if s.len() >= 5 && s.subrange(0, 5) == indented_block_header() {
                assert(s.subrange(0, 5)[0] == '|');
                assert(is_indicator(s[0]));
            }
        }
        assert(!(s[0] == '\'')) by {
            if s[0] == '\'' {
                assert(is_indicator(s[0]));
            }
        }
    } else if s.contains('\n') {
        lemma_collapse_expand(s, '\n', line_break_margin());
        if needs_indent_indicator(s) {
            assert(t.subrange(0, 5) =~= indented_block_header());
            assert(t.skip(5) =~= expand(s, '\n', line_break_margin()));
            assert(t.subrange(0, 4)[1] == '2');
        } else {
            assert(t.subrange(0, 4) =~= block_header());
            assert(t.skip(4) =~= expand(s, '\n', line_break_margin()));
        }
        assert(t != two_quotes()) by {
            assert(t.len() >= 4);
        }
    } else {
        let e = expand(s, '\'', two_quotes());
        lemma_collapse_expand(s, '\'', two_quotes());
        lemma_expand_len(s, '\'', two_quotes());
        assert(t.len() >= 3);
        assert(t != two_quotes());
        assert(t[0] == '\'');
        assert(!(t.len() >= 4 && t.subrange(0, 4) == block_header())) by {
            if t.len() >= 4 && t.subrange(0, 4) == block_header() {
                assert(t.subrange(0, 4)[0] == t[0]);
            }
        }
        assert(!(t.len() >= 5 && t.subrange(0, 5) == indented_block_header())) by {
            if t.len() >= 5 && t.subrange(0, 5) == indented_block_header() {
                assert(t.subrange(0, 5)[0] == t[0]);
            }
        }
        assert(t.last() == '\'');
        assert(t.subrange(1, t.len() - 1) =~= e);
    }
}

pub(crate) fn append_expanded(out: &mut String, s: &str, c: char, rep: &str)
    ensures
        final(out)@ == old(out)@ + expand(s@, c, rep@),
{
    let ghost start = out@;
    let n = s.unicode_len();
    let mut i: usize = 0;
    while i < n
        invariant
            n == s@.len(),
            i <= n,
            out@ == start + expand(s@.subrange(0, i as int), c, rep@),
        decreases n - i,
    {
        let x = s.get_char(i);
        proof {
            assert(s@.subrange(0, i + 1) =~= s@.subrange(0, i as int) + seq![x]);
            lemma_expand_append(s@.subrange(0, i as int), seq![x], c, rep@);
            lemma_expand_one(x, c, rep@);
        }
        if x == c {
            out.append(rep);
        } else {
            out.append(s.substring_char(i, i + 1));
            assert(s@.subrange(i as int, i + 1) =~= seq![x]);
        }
        i = i + 1;
    }
    assert(s@.subrange(0, n as int) =~= s@);
}

fn has_indicator(s: &str) -> (r: bool)
    ensures
        r == (exists|i: int| 0 <= i < s@.len() && is_indicator(#[trigger] s@[i])),
{
    let n = s.unicode_len();
    let mut i: usize = 0;
    while i < n
        invariant
            n == s@.len(),
            i <= n,
            forall|j: int| 0 <= j < i ==> !is_indicator(#[trigger] s@[j]),
        decreases n - i,
    {
        let c = s.get_char(i);
        if c == ':' || c == '|' || c == '>' || c == '-' || c == '*' || c == '&' || c == '!' || c
            == '%' || c == '@' || c == '`' || c == '#' || c == '\n' || c == '\t' || c == '"' || c
            == '\'' || c == '[' || c == ']' || c == '{' || c == '}' || c == '\r' {
            return true;
        }
        i = i + 1;
    }
    false
}

pub(crate) fn has_char(s: &str, c: char) -> (r: bool)
    ensures
        r == s@.contains(c),
{
    let n = s.unicode_len();
    let mut i: usize = 0;
    while i < n
        invariant
            n == s@.len(),
            i <= n,
            forall|j: int| 0 <= j < i ==> s@[j] != c,
        decreases n - i,
    {
        if s.get_char(i) == c {
            return true;
        }
        i = i + 1;
    }
    false
}

/// Whether two texts hold the same characters.
pub fn same_text(a: &str, b: &str) -> (r: bool)
    ensures
        r == (a@ == b@),
{
    let n = a.unicode_len();
    if n != b.unicode_len() {
        return false;
    }
    let mut i: usize = 0;
    while i < n
        invariant
            n == a@.len(),
            n == b@.len(),
            i <= n,
            forall|j: int| 0 <= j < i ==> a@[j] == b@[j],
        decreases n - i,
    {
        if a.get_char(i) != b.get_char(i) {
            return false;
        }
        i = i + 1;
    }
    assert(a@ =~= b@);
    true
}

fn is_reserved_word_exec(s: &str) -> (r: bool)
    ensures
        r == is_reserved_word(s@),
{
    same_text(s, "true") || same_text(s, "True") || same_text(s, "TRUE") || same_text(s, "false")
        || same_text(s, "False") || same_text(s, "FALSE") || same_text(s, "null") || same_text(
        s,
        "Null",
    ) || same_text(s, "NULL") || same_text(s, "~")
}

fn is_yaml_number_like_exec(s: &str) -> (r: bool)
    ensures
        r == is_yaml_number_like(s@),
{
    let n = s.unicode_len();
    if n == 0 {
        return false;
    }
    let c0 = s.get_char(0);
    if c0 == '.' {
        return true;
    }
    if n < 2 {
        return false;
    }
    let c1 = s.get_char(1);
    (c0 == '+' && c1 == '.') || (c0 == '0' && (c1 == 'x' || c1 == 'o' || c1 == 'b'))
}

fn needs_quoting_exec(s: &str) -> (r: bool)
    ensures
        r == needs_quoting(s@),
{
    let n = s.unicode_len();
    has_indicator(s) || (n > 0 && (s.get_char(0) == ' ' || s.get_char(n - 1) == ' '
        || s.get_char(0) == '?' || s.get_char(0) == ','))
        || is_reserved_word_exec(s) || parses_as_float(s) || is_yaml_number_like_exec(s)
}

/// Whether some line of the text starts with a space.
pub fn needs_indent_indicator_exec(s: &str) -> (r: bool)
    ensures
        r == needs_indent_indicator(s@),
{
    let n = s.unicode_len();
    if n > 0 && s.get_char(0) == ' ' {
        return true;
    }
    let mut i: usize = 0;
    while i < n && i + 1 < n
        invariant
            n == s@.len(),
            i <= n,
            forall|j: int| 0 <= j < i && j < n - 1 ==> !(#[trigger] s@[j] == '\n' && s@[j + 1] == ' '),
        decreases n - i,
    {
        if s.get_char(i) == '\n' && s.get_char(i + 1) == ' ' {
            return true;
        }
        i = i + 1;
    }
    false
}

/// Makes a text safe to stand as a scalar value in the generated documents.
pub fn escape_yaml_value(value: &str) -> (r: String)
    ensures
        r@ == escaped(value@),
{
    proof {
        reveal_strlit("''");
        reveal_strlit("|\n  ");
        reveal_strlit("\n  ");
        reveal_strlit("'");
        assert("''"@ =~= two_quotes());
        assert("|\n  "@ =~= block_header());
        assert("\n  "@ =~= line_break_margin());
        assert("'"@ =~= seq!['\'']);
    }
    if value.unicode_len() == 0 {
        return String::from_str("''");
    }
    if !needs_quoting_exec(value) {
        return String::from_str(value);
    }
    if has_char(value, '\n') {
        let mut out = if needs_indent_indicator_exec(value) {
            proof {
                reveal_strlit("|2\n  ");
                assert("|2\n  "@ =~= indented_block_header());
            }
            String::from_str("|2\n  ")
        } else {
            String::from_str("|\n  ")
        };
        append_expanded(&mut out, value, '\n', "\n  ");
        out
    } else {
        let mut out = String::from_str("'");
        append_expanded(&mut out, value, '\'', "''");
        out.append("'");
        out
    }
}

} // verus!
