//! Reading source text: it is split into tokens by a regular expression, and the tokens
//! are read as forms.
use vstd::prelude::*;
use crate::assoc::{assoc_insert, assoc_set};
use crate::printer::{escape, escape_char, quoted};
use crate::text::{chars_of, int_text, law_int_text_parses_back, owned, parse_i64, parse_i64_spec, push_char, push_str, str_is, string_from_chars};
use crate::token_regex::{option_texts, regex_group1, regex_group1_captures, regex_compiles};
use crate::types::{res_view, entry_views, group_views, key_of, lemma_view_shape, new_hashmap, new_list, new_vector, views, Fault, MalError, MalResult, MalType, Val};

verus! {

broadcast use group_views;

/// The pattern whose first group is each token.
pub open spec fn token_pattern() -> Seq<char> {
    "[\\s,]*(~@|[\\[\\]{}()'`~^@]|\"(?:\\\\.|[^\\\\\"])*\"?|;.*|[^\\s\\[\\]{}('\"`,;)]*)"@
}

/// The tokens among successive captures: comments (starting with `;`) are dropped, and the
/// tokens end at the first empty capture.
pub open spec fn token_seq(caps: Seq<Option<Seq<char>>>) -> Seq<Seq<char>>
    decreases caps.len(),
{
    if caps.len() == 0 {
        Seq::empty()
    } else {
        let t = match caps[0] { Some(s) => s, None => Seq::empty() };
        if t.len() == 0 {
            Seq::empty()
        } else if t[0] == ';' {
            token_seq(caps.drop_first())
        } else {
            seq![t] + token_seq(caps.drop_first())
        }
    }
}

/// The texts of strings.
pub open spec fn texts(v: Seq<String>) -> Seq<Seq<char>> {
    Seq::new(v.len(), |i: int| v[i]@)
}

/// The tokens of `input`; `None` when the token pattern does not compile.
pub open spec fn tokens_of(input: Seq<char>) -> Option<Seq<Seq<char>>> {
    if regex_compiles(token_pattern()) {
        Some(token_seq(regex_group1(token_pattern(), input)))
    } else {
        None
    }
}

/// The tokens among successive captures; see [`token_seq`].
pub fn tokens_from_captures(caps: &Vec<Option<String>>) -> (r: Vec<String>)
    ensures
        texts(r@) == token_seq(option_texts(caps@)),
{
    let ghost cv = option_texts(caps@);
    let mut out: Vec<String> = Vec::new();
    let mut i: usize = 0;
    assert(cv.skip(0) == cv);
    while i < caps.len()
        invariant
            i <= caps.len(),
            cv == option_texts(caps@),
            token_seq(cv) == texts(out@) + token_seq(cv.skip(i as int)),
        decreases caps.len() - i,
    {
        let ghost rest = cv.skip(i as int);
        assert(rest.drop_first() == cv.skip(i + 1));
        let t = match &caps[i] {
            Some(s) => s.clone(),
            None => String::new(),
        };
        assert(t@ == match rest[0] { Some(s) => s, None => Seq::<char>::empty() });
        let tc = chars_of(t.as_str());
        if tc.len() == 0 {
            assert(token_seq(rest) == Seq::<Seq<char>>::empty());
            assert(token_seq(cv) =~= texts(out@));
            return out;
        }
        if tc[0] != ';' {
            let ghost before = out@;
            out.push(t);
            assert(texts(out@) =~= texts(before).push(t@));
            assert(texts(out@) + token_seq(cv.skip(i + 1)) =~= texts(before) + (seq![t@] + token_seq(cv.skip(i + 1))));
        }
        i = i + 1;
    }
    assert(token_seq(cv.skip(caps.len() as int)) == Seq::<Seq<char>>::empty());
    assert(token_seq(cv) =~= texts(out@));
    out
}

/// Splits source text into tokens; `None` when the token pattern does not compile.
pub fn tokenize(input: &str) -> (r: Option<Vec<String>>)
    ensures
        match tokens_of(input@) {
            Some(t) => r matches Some(v) && texts(v@) == t,
            None => r is None,
        },
{
    let pattern = "[\\s,]*(~@|[\\[\\]{}()'`~^@]|\"(?:\\\\.|[^\\\\\"])*\"?|;.*|[^\\s\\[\\]{}('\"`,;)]*)";
    assert(pattern@ == token_pattern());
    match regex_group1_captures(pattern, input) {
        Ok(caps) => Some(tokens_from_captures(&caps)),
        Err(_) => None,
    }
}

/// Whether a token is a reader macro.
pub open spec fn is_macro_token(t: Seq<char>) -> bool {
    t == "'"@ || t == "`"@ || t == "~"@ || t == "~@"@ || t == "@"@ || t == "^"@
}

/// The symbol that a reader-macro token stands for.
pub open spec fn macro_name(t: Seq<char>) -> Seq<char> {
    if t == "'"@ {
        "quote"@
    } else if t == "`"@ {
        "quasiquote"@
    } else if t == "~"@ {
        "unquote"@
    } else if t == "~@"@ {
        "splice-unquote"@
    } else if t == "@"@ {
        "deref"@
    } else {
        "with-meta"@
    }
}

/// The characters of a string literal's body from position `i` on, with escapes resolved
/// (`\n` is a newline; a backslash before any other character stands for that character),
/// added to `acc`. `None` when the body ends in an unfinished escape.
pub open spec fn unescape_from(s: Seq<char>, i: int, escaped: bool, acc: Seq<char>) -> Option<Seq<char>>
    decreases s.len() - i,
{
    if i < 0 || i >= s.len() {
        if escaped { None } else { Some(acc) }
    } else if escaped {
        unescape_from(s, i + 1, false, acc.push(if s[i] == 'n' { '\n' } else { s[i] }))
    } else if s[i] == '\\' {
        unescape_from(s, i + 1, true, acc)
    } else {
        unescape_from(s, i + 1, false, acc.push(s[i]))
    }
}

/// The string that a string-literal token denotes.
pub open spec fn read_atom_string_spec(t: Seq<char>) -> Result<Val, Fault> {
    if t.len() >= 2 && t.last() == '"' {
        match unescape_from(t.subrange(1, t.len() - 1), 0, false, Seq::empty()) {
            Some(s) => Ok(Val::Str(s)),
            None => Err(Fault::Parse("unbalanced '\\'"@)),
        }
    } else {
        Err(Fault::Parse("unbalanced '\"'"@))
    }
}

/// The value that an atom token denotes.
pub open spec fn read_atom_spec(t: Seq<char>) -> Result<Val, Fault> {
    match parse_i64_spec(t) {
        Some(n) => Ok(Val::Number(n)),
        None => if t == "nil"@ {
            Ok(Val::Nil)
        } else if t == "true"@ {
            Ok(Val::Bool(true))
        } else if t == "false"@ {
            Ok(Val::Bool(false))
        } else if t.len() > 0 && t[0] == '"' {
            read_atom_string_spec(t)
        } else if t.len() > 0 && t[0] == ':' {
            Ok(Val::Keyword(t))
        } else if t == ")"@ || t == "]"@ || t == "}"@ {
            Err(Fault::Parse("unbalanced '"@ + t + "'"@))
        } else {
            Ok(Val::Symbol(t))
        },
    }
}

/// The entries that the items from position `i` on add to `acc`, read as key, value, key,
/// value, and so on.
pub open spec fn map_pairs(items: Seq<Val>, i: int, acc: Seq<(Seq<char>, Val)>) -> Result<Seq<(Seq<char>, Val)>, Fault>
    decreases items.len() - i,
{
    if i < 0 || i + 1 >= items.len() {
        Ok(acc)
    } else {
        match key_of(items[i]) {
            Some(k) => map_pairs(items, i + 2, assoc_insert(acc, k, items[i + 1])),
            None => Err(Fault::Parse("hash-map key not hashable"@)),
        }
    }
}

/// The hash-map that alternating keys and values make.
pub open spec fn read_map_spec(items: Seq<Val>) -> Result<Val, Fault> {
    if items.len() % 2 == 1 {
        Err(Fault::Parse("odd number of items in {} literal"@))
    } else {
        match map_pairs(items, 0, Seq::empty()) {
            Ok(e) => Ok(Val::HashMap(e, None)),
            Err(f) => Err(f),
        }
    }
}

/// The form that starts at token `p`, and the position after it.
pub open spec fn read_form_at(toks: Seq<Seq<char>>, p: int) -> Result<(Val, int), Fault>
    decreases toks.len() - p, 2int,
{
    if p < 0 || p >= toks.len() {
        Err(Fault::Parse("underflow"@))
    } else {
        let t = toks[p];
        if t == "("@ {
            match read_list_at(toks, p + 1, "("@, ")"@, Seq::empty()) {
                Ok((items, q)) => Ok((Val::List(items, None), q)),
                Err(f) => Err(f),
            }
        } else if t == "["@ {
            match read_list_at(toks, p + 1, "["@, "]"@, Seq::empty()) {
                Ok((items, q)) => Ok((Val::Vector(items, None), q)),
                Err(f) => Err(f),
            }
        } else if t == "{"@ {
            match read_list_at(toks, p + 1, "{"@, "}"@, Seq::empty()) {
                Ok((items, q)) => match read_map_spec(items) {
                    Ok(m) => Ok((m, q)),
                    Err(f) => Err(f),
                },
                Err(f) => Err(f),
            }
        } else if is_macro_token(t) {
            read_macro_at(toks, p)
        } else {
            match read_atom_spec(t) {
                Ok(v) => Ok((v, p + 1)),
                Err(f) => Err(f),
            }
        }
    }
}

/// The forms from token `p` up to the closing delimiter `close`, added to `acc`, and the
/// position after the delimiter.
pub open spec fn read_list_at(toks: Seq<Seq<char>>, p: int, open: Seq<char>, close: Seq<char>, acc: Seq<Val>) -> Result<(Seq<Val>, int), Fault>
    decreases toks.len() - p, 3int,
{
    if p < 0 || p >= toks.len() {
        Err(Fault::Parse("unbalanced '"@ + open + "'"@))
    } else if toks[p] == close {
        Ok((acc, p + 1))
    } else {
        match read_form_at(toks, p) {
            Ok((v, q)) => if p < q <= toks.len() {
                read_list_at(toks, q, open, close, acc.push(v))
            } else {
                Err(Fault::Parse("underflow"@))
            },
            Err(f) => Err(f),
        }
    }
}

/// The list that a reader macro at token `p` stands for, and the position after it.
pub open spec fn read_macro_at(toks: Seq<Seq<char>>, p: int) -> Result<(Val, int), Fault>
    decreases toks.len() - p, 1int,
{
    if p < 0 || p >= toks.len() {
        Err(Fault::Parse("underflow"@))
    } else {
        let name = macro_name(toks[p]);
        if name == "with-meta"@ {
            match read_form_at(toks, p + 1) {
                Ok((m, q1)) => if p < q1 <= toks.len() {
                    match read_form_at(toks, q1) {
                        Ok((target, q2)) => Ok((Val::List(seq![Val::Symbol(name), target, m], None), q2)),
                        Err(f) => Err(f),
                    }
                } else {
                    Err(Fault::Parse("underflow"@))
                },
                Err(f) => Err(f),
            }
        } else {
            match read_form_at(toks, p + 1) {
                Ok((target, q)) => Ok((Val::List(seq![Val::Symbol(name), target], None), q)),
                Err(f) => Err(f),
            }
        }
    }
}

/// Reading a form moves past at least one token and stays within the tokens.
pub proof fn lemma_read_form_advances(toks: Seq<Seq<char>>, p: int)
    ensures
        read_form_at(toks, p) matches Ok((_, q)) ==> p < q <= toks.len(),
    decreases toks.len() - p, 2int,
{
    if 0 <= p < toks.len() {
        let t = toks[p];
        if t == "("@ {
            lemma_read_list_advances(toks, p + 1, "("@, ")"@, Seq::empty());
        } else if t == "["@ {
            lemma_read_list_advances(toks, p + 1, "["@, "]"@, Seq::empty());
        } else if t == "{"@ {
            lemma_read_list_advances(toks, p + 1, "{"@, "}"@, Seq::empty());
        } else if is_macro_token(t) {
            lemma_read_macro_advances(toks, p);
        }
    }
}

/// Reading the rest of a list moves past its closing delimiter and stays within the tokens.
pub proof fn lemma_read_list_advances(toks: Seq<Seq<char>>, p: int, open: Seq<char>, close: Seq<char>, acc: Seq<Val>)
    ensures
        read_list_at(toks, p, open, close, acc) matches Ok((_, q)) ==> p < q <= toks.len(),
    decreases toks.len() - p, 3int,
{
    if 0 <= p < toks.len() && toks[p] != close {
        lemma_read_form_advances(toks, p);
        if let Ok((v, q)) = read_form_at(toks, p) {
            if p < q <= toks.len() {
                lemma_read_list_advances(toks, q, open, close, acc.push(v));
            }
        }
    }
}

/// Reading a reader macro moves past its operand(s) and stays within the tokens.
pub proof fn lemma_read_macro_advances(toks: Seq<Seq<char>>, p: int)
    ensures
        read_macro_at(toks, p) matches Ok((_, q)) ==> p < q <= toks.len(),
    decreases toks.len() - p, 1int,
{
    if 0 <= p < toks.len() {
        lemma_read_form_advances(toks, p + 1);
        if macro_name(toks[p]) == "with-meta"@ {
            if let Ok((m, q1)) = read_form_at(toks, p + 1) {
                if p < q1 <= toks.len() {
                    lemma_read_form_advances(toks, q1);
                }
            }
        }
    }
}

/// Tokens, and the position of the next one to read.
pub struct Reader {
    tokens: Vec<String>,
    pos: usize,
}

impl Reader {
    /// The texts of all tokens.
    pub closed spec fn toks(&self) -> Seq<Seq<char>> {
        texts(self.tokens@)
    }

    /// The position of the next token.
    pub closed spec fn position(&self) -> int {
        self.pos as int
    }

    /// A reader at the first of `tokens`.
    pub fn new(tokens: Vec<String>) -> (r: Reader)
        ensures
            r.toks() == texts(tokens@),
            r.position() == 0,
            r.position() <= r.toks().len(),
    {
        Reader { tokens, pos: 0 }
    }

    /// Whether all tokens have been read.
    pub fn is_empty(&self) -> (r: bool)
        ensures
            r == (self.position() >= self.toks().len()),
    {
        assert(self.toks().len() == self.tokens.len());
        self.pos >= self.tokens.len()
    }

    /// The next token, which is then passed.
    pub fn next(&mut self) -> (r: String)
        requires
            old(self).position() < old(self).toks().len(),
        ensures
            r@ == old(self).toks()[old(self).position()],
            final(self).toks() == old(self).toks(),
            final(self).position() == old(self).position() + 1,
    {
        assert(self.pos < self.tokens.len());
        let t = self.tokens[self.pos].clone();
        self.pos = self.pos + 1;
        t
    }

    /// The next token, which is not passed.
    pub fn peek(&self) -> (r: Option<&String>)
        ensures
            self.position() < self.toks().len() ==> (r matches Some(t) && t@ == self.toks()[self.position()]),
            self.position() >= self.toks().len() ==> r is None,
    {
        if self.pos < self.tokens.len() {
            Some(&self.tokens[self.pos])
        } else {
            None
        }
    }
}

/// Whether a token is a reader macro.
pub fn is_macro(token: &str) -> (r: bool)
    ensures
        r == is_macro_token(token@),
{
    str_is(token, "'") || str_is(token, "`") || str_is(token, "~") || str_is(token, "~@") || str_is(token, "@")
        || str_is(token, "^")
}

/// The string that a string-literal token denotes.
pub fn read_atom_string(token: &str) -> (r: MalResult)
    ensures
        res_view(r) == read_atom_string_spec(token@),
{
    let cs = chars_of(token);
    if cs.len() >= 2 && cs[cs.len() - 1] == '"' {
        let ghost inner = cs@.subrange(1, cs@.len() - 1);
        let mut out = String::new();
        let mut escaped = false;
        let mut i: usize = 1;
        while i < cs.len() - 1
            invariant
                cs@ == token@,
                cs@.len() >= 2,
                1 <= i <= cs@.len() - 1,
                inner == cs@.subrange(1, cs@.len() - 1),
                unescape_from(inner, 0, false, Seq::empty()) == unescape_from(inner, i - 1, escaped, out@),
            decreases cs.len() - 1 - i,
        {
            let c = cs[i];
            assert(inner[i - 1] == c);
            if escaped {
                if c == 'n' {
                    push_char(&mut out, '\n');
                } else {
                    push_char(&mut out, c);
                }
                escaped = false;
            } else if c == '\\' {
                escaped = true;
            } else {
                push_char(&mut out, c);
            }
            i = i + 1;
        }
        if escaped {
            Err(MalError::ParseError(owned("unbalanced '\\'")))
        } else {
            Ok(MalType::String(out))
        }
    } else {
        Err(MalError::ParseError(owned("unbalanced '\"'")))
    }
}

/// The value that an atom token denotes.
pub fn read_atom(token: String) -> (r: MalResult)
    ensures
        res_view(r) == read_atom_spec(token@),
{
    match parse_i64(token.as_str()) {
        Some(n) => Ok(MalType::Number(n)),
        None => {
            if str_is(token.as_str(), "nil") {
                Ok(MalType::Nil)
            } else if str_is(token.as_str(), "true") {
                Ok(MalType::Bool(true))
            } else if str_is(token.as_str(), "false") {
                Ok(MalType::Bool(false))
            } else if crate::text::starts_with_char(token.as_str(), '"') {
                read_atom_string(token.as_str())
            } else if crate::text::starts_with_char(token.as_str(), ':') {
                Ok(MalType::Keyword(token))
            } else if str_is(token.as_str(), ")") || str_is(token.as_str(), "]") || str_is(token.as_str(), "}") {
                let mut msg = owned("unbalanced '");
                push_str(&mut msg, token.as_str());
                push_str(&mut msg, "'");
                Err(MalError::ParseError(msg))
            } else {
                Ok(MalType::Symbol(token))
            }
        },
    }
}

/// The hash-map that alternating keys and values make. Keys are strings and keywords.
pub fn read_map(list: Vec<MalType>) -> (r: MalResult)
    ensures
        res_view(r) == read_map_spec(views(list@)),
{
    if list.len() % 2 == 1 {
        return Err(MalError::ParseError(owned("odd number of items in {} literal")));
    }
    let ghost items = views(list@);
    let mut map: Vec<(String, MalType)> = Vec::new();
    let mut i: usize = 0;
    while i + 1 < list.len()
        invariant
            items == views(list@),
            list@.len() % 2 == 0,
            i % 2 == 0,
            i <= list@.len(),
            map_pairs(items, 0, Seq::empty()) == map_pairs(items, i as int, entry_views(map@)),
        decreases list.len() - i,
    {
        assert(items[i as int] == list@[i as int]@);
        assert(items[i + 1] == list@[i + 1]@);
        match list[i].to_key() {
            Ok(key) => {
                assoc_set(&mut map, key, list[i + 1].deep_clone());
            },
            Err(e) => {
                return Err(e);
            },
        }
        i = i + 2;
    }
    Ok(new_hashmap(map))
}

/// Reads a form and moves past it.
pub fn read_form(reader: &mut Reader) -> (r: MalResult)
    requires
        old(reader).position() <= old(reader).toks().len(),
    ensures
        final(reader).toks() == old(reader).toks(),
        final(reader).position() <= final(reader).toks().len(),
        match read_form_at(old(reader).toks(), old(reader).position()) {
            Ok((v, q)) => r matches Ok(x) && x@ == v && final(reader).position() == q,
            Err(f) => r matches Err(e) && e@ == f,
        },
    decreases old(reader).toks().len() - old(reader).position(), 2int,
{
    proof { reveal_strlit("("); reveal_strlit("["); reveal_strlit("{"); reveal_strlit(")"); reveal_strlit("]"); reveal_strlit("}"); }
    let ghost toks = reader.toks();
    let ghost p = reader.position();
    match reader.peek() {
        Some(t) => {
            if str_is(t.as_str(), "(") {
                let _open = reader.next();
                match read_list(reader, "(", ")") {
                    Ok(items) => Ok(new_list(items)),
                    Err(e) => Err(e),
                }
            } else if str_is(t.as_str(), "[") {
                let _open = reader.next();
                match read_list(reader, "[", "]") {
                    Ok(items) => Ok(new_vector(items)),
                    Err(e) => Err(e),
                }
            } else if str_is(t.as_str(), "{") {
                let _open = reader.next();
                match read_list(reader, "{", "}") {
                    Ok(items) => read_map(items),
                    Err(e) => Err(e),
                }
            } else if is_macro(t.as_str()) {
                read_macro(reader)
            } else {
                let token = reader.next();
                read_atom(token)
            }
        },
        None => Err(MalError::ParseError(owned("underflow"))),
    }
}

/// Reads forms up to the closing delimiter `close` and moves past it. The reader stands
/// after the opening delimiter `open`.
pub fn read_list(reader: &mut Reader, open: &str, close: &str) -> (r: Result<Vec<MalType>, MalError>)
    requires
        old(reader).position() <= old(reader).toks().len(),
    ensures
        final(reader).toks() == old(reader).toks(),
        final(reader).position() <= final(reader).toks().len(),
        match read_list_at(old(reader).toks(), old(reader).position(), open@, close@, Seq::empty()) {
            Ok((items, q)) => r matches Ok(x) && views(x@) == items && final(reader).position() == q,
            Err(f) => r matches Err(e) && e@ == f,
        },
    decreases old(reader).toks().len() - old(reader).position(), 3int,
{
    let ghost toks = reader.toks();
    let ghost start = reader.position();
    let mut list: Vec<MalType> = Vec::new();
    while !reader.is_empty()
        invariant
            reader.toks() == toks,
            toks == old(reader).toks(),
            start == old(reader).position(),
            start <= reader.position() <= toks.len(),
            read_list_at(toks, start, open@, close@, Seq::empty())
                == read_list_at(toks, reader.position(), open@, close@, views(list@)),
        decreases toks.len() - reader.position(),
    {
        let at_close = match reader.peek() {
            Some(t) => str_is(t.as_str(), close),
            None => false,
        };
        if at_close {
            let _close = reader.next();
            return Ok(list);
        }
        let ghost p = reader.position();
        proof { lemma_read_form_advances(toks, p); }
        match read_form(reader) {
            Ok(v) => {
                let ghost prev = list@;
                list.push(v);
                assert(views(list@) =~= views(prev).push(v@));
            },
            Err(e) => {
                return Err(e);
            },
        }
    }
    let mut msg = owned("unbalanced '");
    push_str(&mut msg, open);
    push_str(&mut msg, "'");
    Err(MalError::ParseError(msg))
}

/// Reads the list that a reader macro stands for.
pub fn read_macro(reader: &mut Reader) -> (r: MalResult)
    requires
        old(reader).position() < old(reader).toks().len(),
        is_macro_token(old(reader).toks()[old(reader).position()]),
    ensures
        final(reader).toks() == old(reader).toks(),
        final(reader).position() <= final(reader).toks().len(),
        match read_macro_at(old(reader).toks(), old(reader).position()) {
            Ok((v, q)) => r matches Ok(x) && x@ == v && final(reader).position() == q,
            Err(f) => r matches Err(e) && e@ == f,
        },
    decreases old(reader).toks().len() - old(reader).position(), 1int,
{
    proof {
        reveal_strlit("'"); reveal_strlit("`"); reveal_strlit("~"); reveal_strlit("~@"); reveal_strlit("@"); reveal_strlit("^");
        reveal_strlit("quote"); reveal_strlit("quasiquote"); reveal_strlit("unquote"); reveal_strlit("splice-unquote");
        reveal_strlit("deref"); reveal_strlit("with-meta");
    }
    let ghost toks = reader.toks();
    let ghost p = reader.position();
    let t = reader.next();
    let name = if str_is(t.as_str(), "'") {
        owned("quote")
    } else if str_is(t.as_str(), "`") {
        owned("quasiquote")
    } else if str_is(t.as_str(), "~") {
        owned("unquote")
    } else if str_is(t.as_str(), "~@") {
        owned("splice-unquote")
    } else if str_is(t.as_str(), "@") {
        owned("deref")
    } else {
        owned("with-meta")
    };
    assert(name@ == macro_name(toks[p]));
    if str_is(name.as_str(), "with-meta") {
        proof { lemma_read_form_advances(toks, p + 1); }
        let target1 = match read_form(reader) {
            Ok(v) => v,
            Err(e) => {
                return Err(e);
            },
        };
        let target2 = match read_form(reader) {
            Ok(v) => v,
            Err(e) => {
                return Err(e);
            },
        };
        let mut items: Vec<MalType> = Vec::new();
        items.push(MalType::Symbol(name));
        items.push(target2);
        items.push(target1);
        let ghost want = seq![Val::Symbol(macro_name(toks[p])), items@[1]@, items@[2]@];
        assert(views(items@) =~= want);
        Ok(new_list(items))
    } else {
        let target = match read_form(reader) {
            Ok(v) => v,
            Err(e) => {
                return Err(e);
            },
        };
        let mut items: Vec<MalType> = Vec::new();
        items.push(MalType::Symbol(name));
        items.push(target);
        let ghost want = seq![Val::Symbol(macro_name(toks[p])), items@[1]@];
        assert(views(items@) =~= want);
        Ok(new_list(items))
    }
}

/// The model of reading source text.
pub open spec fn read_str_spec(input: Seq<char>) -> Result<Val, Fault> {
    match tokens_of(input) {
        None => Err(Fault::Parse("invalid token pattern"@)),
        Some(toks) => if toks.len() == 0 {
            Err(Fault::Empty)
        } else {
            match read_form_at(toks, 0) {
                Ok((v, _)) => Ok(v),
                Err(f) => Err(f),
            }
        },
    }
}

/// Reads the first form of source text. Tokens after it are ignored.
pub fn read_str(input: &str) -> (r: MalResult)
    ensures
        res_view(r) == read_str_spec(input@),
{
    let tokens = match tokenize(input) {
        Some(t) => t,
        None => {
            return Err(MalError::ParseError(owned("invalid token pattern")));
        },
    };
    let mut reader = Reader::new(tokens);
    if reader.is_empty() {
        Err(MalError::EmptyInput)
    } else {
        read_form(&mut reader)
    }
}

proof fn lemma_unescape_escaped(t: Seq<char>, i: int, a: Seq<char>, acc: Seq<char>)
    requires
        0 <= i,
        i + escape(a).len() <= t.len(),
        t.subrange(i, i + escape(a).len()) == escape(a),
    ensures
        unescape_from(t, i, false, acc) == unescape_from(t, i + escape(a).len(), false, acc + a),
    decreases a.len(),
{
    if a.len() == 0 {
        assert(acc + a =~= acc);
    } else {
        let a1 = a.drop_last();
        let c = a.last();
        let e1 = escape(a1);
        let j = i + e1.len();
        assert(escape(a) == e1 + escape_char(c));
        assert(t.subrange(i, j) =~= e1) by {
            assert(t.subrange(i, j) =~= t.subrange(i, i + escape(a).len()).subrange(0, e1.len() as int));
        }
        lemma_unescape_escaped(t, i, a1, acc);
        let acc1 = acc + a1;
        assert(acc1.push(c) =~= acc + a);
        assert(t[j] == escape_char(c)[0]) by {
            assert(t[j] == t.subrange(i, i + escape(a).len())[e1.len() as int]);
        }
        if c == '\\' || c == '"' || c == '\n' {
            assert(t[j + 1] == escape_char(c)[1]) by {
                assert(t[j + 1] == t.subrange(i, i + escape(a).len())[e1.len() + 1int]);
            }
            assert(unescape_from(t, j, false, acc1) == unescape_from(t, j + 1, true, acc1));
            assert(unescape_from(t, j + 1, true, acc1) == unescape_from(t, j + 2, false, acc1.push(c)));
        } else {
            assert(unescape_from(t, j, false, acc1) == unescape_from(t, j + 1, false, acc1.push(c)));
        }
    }
}

/// A string written readably, as a token, reads back as the same string.
pub proof fn law_string_token_round_trip(s: Seq<char>)
    ensures
        read_atom_string_spec(quoted(s)) == Ok::<Val, Fault>(Val::Str(s)),
        read_atom_spec(quoted(s)) == Ok::<Val, Fault>(Val::Str(s)),
{
    let t = quoted(s);
    let body = t.subrange(1, t.len() - 1);
    assert(body =~= escape(s));
    assert(body.subrange(0, escape(s).len() as int) =~= escape(s));
    lemma_unescape_escaped(body, 0, s, Seq::empty());
    assert(Seq::<char>::empty() + s =~= s);
    reveal_strlit("nil");
    reveal_strlit("true");
    reveal_strlit("false");
    reveal_strlit(")");
    reveal_strlit("]");
    reveal_strlit("}");
    assert(t[0] == '"');
    assert(!crate::text::is_digit(t[0]));
    assert(t != "nil"@ && t != "true"@ && t != "false"@) by {
        assert("nil"@[0] == 'n');
        assert("true"@[0] == 't');
        assert("false"@[0] == 'f');
    }
}

/// A number written by the printer, as a token, reads back as the same number.
pub proof fn law_number_token_round_trip(n: i64)
    ensures
        read_atom_spec(int_text(n as int)) == Ok::<Val, Fault>(Val::Number(n)),
{
    law_int_text_parses_back(n);
}

/// A keyword written by the printer, as a token, reads back as the same keyword.
pub proof fn law_keyword_token_round_trip(k: Seq<char>)
    requires
        k.len() > 0,
        k[0] == ':',
    ensures
        read_atom_spec(k) == Ok::<Val, Fault>(Val::Keyword(k)),
{
    reveal_strlit("nil");
    reveal_strlit("true");
    reveal_strlit("false");
    assert(!crate::text::is_digit(k[0]));
    assert(k != "nil"@ && k != "true"@ && k != "false"@) by {
        assert("nil"@[0] == 'n');
        assert("true"@[0] == 't');
        assert("false"@[0] == 'f');
    }
}

} // verus!
