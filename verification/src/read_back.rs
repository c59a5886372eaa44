//! Reading back what the printer writes: the tokens of a value written readably read as
//! that same value.
use vstd::prelude::*;
use crate::assoc::{assoc_insert, keys_unique, lemma_find_key};
use crate::namespace::key_value;
use crate::printer::{key_text, pr};
use crate::reader::{
    is_macro_token, law_keyword_token_round_trip, law_number_token_round_trip,
    law_string_token_round_trip, map_pairs, read_atom_spec, read_form_at, read_list_at, read_map_spec,
    read_str_spec, tokens_of,
};
use crate::text::{int_text, is_digit, lemma_int_text_start};
use crate::types::{key_of, Fault, Val, KW_SUFFIX};

verus! {

/// Whether a hash-map key is written as text that reads back as the same key: a keyword
/// key (one that ends in [`KW_SUFFIX`]) must hold a keyword's text, which starts with `:`.
pub open spec fn key_readable(k: Seq<char>) -> bool {
    k.len() > 0 && k.last() == KW_SUFFIX ==> k.len() >= 2 && k[0] == ':'
}

/// Whether the printer writes `x` readably as text that reads back as `x`: nil, booleans,
/// numbers, strings and keywords (whose text starts with `:`), and lists, vectors and
/// hash-maps of such values without metadata, whose hash-maps have unique readable keys.
pub open spec fn readable(x: Val) -> bool
    decreases x, 0int,
{
    match x {
        Val::Nil => true,
        Val::Bool(_) => true,
        Val::Number(_) => true,
        Val::Str(_) => true,
        Val::Keyword(k) => k.len() > 0 && k[0] == ':',
        Val::List(l, m) => m is None && all_readable(l),
        Val::Vector(l, m) => m is None && all_readable(l),
        Val::HashMap(e, m) => m is None && keys_unique(e) && entries_readable(e),
        _ => false,
    }
}

/// Whether every value of `l` is [`readable`].
pub open spec fn all_readable(l: Seq<Val>) -> bool
    decreases l, 1int,
{
    if l.len() == 0 {
        true
    } else {
        readable(l[0]) && all_readable(l.subrange(1, l.len() as int))
    }
}

/// Whether every entry of `e` has a readable key and a [`readable`] value.
pub open spec fn entries_readable(e: Seq<(Seq<char>, Val)>) -> bool
    decreases e, 1int,
{
    if e.len() == 0 {
        true
    } else {
        key_readable(e[0].0) && readable(e[0].1) && entries_readable(e.subrange(1, e.len() as int))
    }
}

/// The tokens of `x` as the printer writes it readably: the delimiters of each list,
/// vector and hash-map, each key of a hash-map as [`key_text`] writes it, and each other
/// value as [`pr`] writes it.
pub open spec fn print_tokens(x: Val) -> Seq<Seq<char>>
    decreases x, 0int,
{
    match x {
        Val::List(l, _) => seq!["("@] + seq_tokens(l) + seq![")"@],
        Val::Vector(l, _) => seq!["["@] + seq_tokens(l) + seq!["]"@],
        Val::HashMap(e, _) => seq!["{"@] + entry_tokens(e) + seq!["}"@],
        _ => seq![pr(x, true, Seq::empty(), 0)],
    }
}

/// The tokens of the values of `l`, one after another.
pub open spec fn seq_tokens(l: Seq<Val>) -> Seq<Seq<char>>
    decreases l, 1int,
{
    if l.len() == 0 {
        Seq::empty()
    } else {
        print_tokens(l[0]) + seq_tokens(l.subrange(1, l.len() as int))
    }
}

/// The tokens of hash-map entries: each key, then the tokens of its value.
pub open spec fn entry_tokens(e: Seq<(Seq<char>, Val)>) -> Seq<Seq<char>>
    decreases e, 1int,
{
    if e.len() == 0 {
        Seq::empty()
    } else {
        seq![key_text(e[0].0)] + print_tokens(e[0].1) + entry_tokens(e.subrange(1, e.len() as int))
    }
}

/// The values that a hash-map's entries read as between its braces: key, value, key,
/// value, and so on.
pub open spec fn flat(e: Seq<(Seq<char>, Val)>) -> Seq<Val>
    decreases e.len(),
{
    if e.len() == 0 {
        Seq::empty()
    } else {
        seq![key_value(e[0].0), e[0].1] + flat(e.subrange(1, e.len() as int))
    }
}

/// Whether the tokens `s` stand in `toks` from position `p` on.
pub open spec fn occurs_at(toks: Seq<Seq<char>>, p: int, s: Seq<Seq<char>>) -> bool {
    0 <= p && p + s.len() <= toks.len() && toks.subrange(p, p + s.len()) == s
}

/// Whether a token starts with a character that is no delimiter and no reader macro.
pub open spec fn plain_start(t: Seq<char>) -> bool {
    t.len() > 0 && t[0] != '(' && t[0] != '[' && t[0] != '{' && t[0] != ')' && t[0] != ']'
        && t[0] != '}' && t[0] != '\'' && t[0] != '`' && t[0] != '~' && t[0] != '@' && t[0] != '^'
}

proof fn lemma_occurs_split(toks: Seq<Seq<char>>, p: int, a: Seq<Seq<char>>, b: Seq<Seq<char>>)
    requires
        occurs_at(toks, p, a + b),
    ensures
        occurs_at(toks, p, a),
        occurs_at(toks, p + a.len(), b),
{
    let w = toks.subrange(p, p + (a + b).len());
    assert forall|k: int| 0 <= k < a.len() implies toks[p + k] == a[k] by {
        assert(w[k] == toks[p + k]);
        assert((a + b)[k] == a[k]);
    }
    assert forall|k: int| 0 <= k < b.len() implies toks[p + a.len() + k] == b[k] by {
        assert(w[a.len() + k] == toks[p + a.len() + k]);
        assert((a + b)[a.len() + k] == b[k]);
    }
    assert(toks.subrange(p, p + a.len()) =~= a);
    assert(toks.subrange(p + a.len(), p + a.len() + b.len()) =~= b);
}

proof fn lemma_plain_token(t: Seq<char>)
    requires
        plain_start(t),
    ensures
        t != "("@ && t != "["@ && t != "{"@,
        t != ")"@ && t != "]"@ && t != "}"@,
        !is_macro_token(t),
{
    reveal_strlit("(");
    reveal_strlit("[");
    reveal_strlit("{");
    reveal_strlit(")");
    reveal_strlit("]");
    reveal_strlit("}");
    reveal_strlit("'");
    reveal_strlit("`");
    reveal_strlit("~");
    reveal_strlit("~@");
    reveal_strlit("@");
    reveal_strlit("^");
}

/// The token of a readable value other than a list, vector or hash-map reads as that value.
proof fn lemma_atom_token(x: Val)
    requires
        readable(x),
        !(x is List || x is Vector || x is HashMap),
    ensures
        plain_start(pr(x, true, Seq::empty(), 0)),
        read_atom_spec(pr(x, true, Seq::empty(), 0)) == Ok::<Val, Fault>(x),
{
    reveal_strlit("nil");
    reveal_strlit("true");
    reveal_strlit("false");
    let t = pr(x, true, Seq::empty(), 0);
    match x {
        Val::Nil => {
            assert(t == "nil"@);
            assert(t[0] == 'n');
            assert(!is_digit(t[0]));
        },
        Val::Bool(b) => {
            if b {
                assert(t == "true"@);
                assert(t[0] == 't');
                assert(!is_digit(t[0]));
            } else {
                assert(t == "false"@);
                assert(t[0] == 'f');
                assert(!is_digit(t[0]));
                assert(t != "true"@) by {
                    assert("true"@[0] == 't');
                }
            }
        },
        Val::Number(n) => {
            assert(t == int_text(n as int));
            lemma_int_text_start(n as int);
            law_number_token_round_trip(n);
        },
        Val::Str(s) => {
            law_string_token_round_trip(s);
        },
        Val::Keyword(k) => {
            law_keyword_token_round_trip(k);
        },
        _ => {},
    }
}

/// The token of a readable value other than a list, vector or hash-map, standing at `p`,
/// reads as that value.
proof fn lemma_read_atom(x: Val, toks: Seq<Seq<char>>, p: int)
    requires
        readable(x),
        !(x is List || x is Vector || x is HashMap),
        0 <= p < toks.len(),
        toks[p] == pr(x, true, Seq::empty(), 0),
    ensures
        read_form_at(toks, p) == Ok::<(Val, int), Fault>((x, p + 1)),
{
    lemma_atom_token(x);
    lemma_plain_token(toks[p]);
}

/// The first token of a readable value is there and closes nothing.
proof fn lemma_first_token(x: Val)
    requires
        readable(x),
    ensures
        print_tokens(x).len() >= 1,
        print_tokens(x)[0] != ")"@ && print_tokens(x)[0] != "]"@ && print_tokens(x)[0] != "}"@,
{
    reveal_strlit("(");
    reveal_strlit("[");
    reveal_strlit("{");
    reveal_strlit(")");
    reveal_strlit("]");
    reveal_strlit("}");
    match x {
        Val::List(..) => {
            assert(print_tokens(x)[0] == "("@);
            assert("("@[0] == '(' && ")"@[0] == ')' && "]"@[0] == ']' && "}"@[0] == '}');
        },
        Val::Vector(..) => {
            assert(print_tokens(x)[0] == "["@);
            assert("["@[0] == '[' && ")"@[0] == ')' && "]"@[0] == ']' && "}"@[0] == '}');
        },
        Val::HashMap(..) => {
            assert(print_tokens(x)[0] == "{"@);
            assert("{"@[0] == '{' && ")"@[0] == ')' && "]"@[0] == ']' && "}"@[0] == '}');
        },
        _ => {
            lemma_atom_token(x);
            lemma_plain_token(pr(x, true, Seq::empty(), 0));
        },
    }
}

/// A readable hash-map key is the key of the value it reads as, and that value is readable
/// and written as the key's text.
proof fn lemma_key_token(k: Seq<char>)
    requires
        key_readable(k),
    ensures
        readable(key_value(k)),
        !(key_value(k) is List || key_value(k) is Vector || key_value(k) is HashMap),
        pr(key_value(k), true, Seq::empty(), 0) == key_text(k),
        key_of(key_value(k)) == Some(k),
{
    if k.len() > 0 && k.last() == KW_SUFFIX {
        assert(k.drop_last().push(KW_SUFFIX) =~= k);
        assert(k.drop_last()[0] == ':');
    }
}

/// The tokens of a readable value standing at `p` read as that value, and reading ends just
/// past them.
pub proof fn law_read_printed_at(x: Val, toks: Seq<Seq<char>>, p: int)
    requires
        readable(x),
        occurs_at(toks, p, print_tokens(x)),
    ensures
        read_form_at(toks, p) == Ok::<(Val, int), Fault>((x, p + print_tokens(x).len())),
    decreases x, 0int,
{
    reveal_strlit("(");
    reveal_strlit("[");
    reveal_strlit("{");
    reveal_strlit(")");
    reveal_strlit("]");
    reveal_strlit("}");
    let pt = print_tokens(x);
    match x {
        Val::List(l, _) => {
            let body = seq_tokens(l);
            assert(pt =~= seq!["("@] + (body + seq![")"@]));
            lemma_occurs_split(toks, p, seq!["("@], body + seq![")"@]);
            assert(toks[p] == "("@) by {
                assert(toks.subrange(p, p + 1)[0] == toks[p]);
            }
            lemma_read_items(l, toks, p + 1, "("@, ")"@, Seq::empty());
            assert(Seq::<Val>::empty() + l =~= l);
        },
        Val::Vector(l, _) => {
            let body = seq_tokens(l);
            assert(pt =~= seq!["["@] + (body + seq!["]"@]));
            lemma_occurs_split(toks, p, seq!["["@], body + seq!["]"@]);
            assert(toks[p] == "["@) by {
                assert(toks.subrange(p, p + 1)[0] == toks[p]);
            }
            lemma_read_items(l, toks, p + 1, "["@, "]"@, Seq::empty());
            assert(Seq::<Val>::empty() + l =~= l);
        },
        Val::HashMap(e, _) => {
            let body = entry_tokens(e);
            assert(pt =~= seq!["{"@] + (body + seq!["}"@]));
            lemma_occurs_split(toks, p, seq!["{"@], body + seq!["}"@]);
            assert(toks[p] == "{"@) by {
                assert(toks.subrange(p, p + 1)[0] == toks[p]);
            }
            lemma_read_entries(e, toks, p + 1, Seq::empty());
            assert(Seq::<Val>::empty() + flat(e) =~= flat(e));
            lemma_read_flat(e);
        },
        _ => {
            assert(toks[p] == pr(x, true, Seq::empty(), 0)) by {
                assert(toks.subrange(p, p + 1)[0] == toks[p]);
            }
            lemma_read_atom(x, toks, p);
        },
    }
}

/// The tokens of readable values, followed by the closing delimiter `close`, read as those
/// values after `acc`, and reading ends just past the delimiter.
proof fn lemma_read_items(l: Seq<Val>, toks: Seq<Seq<char>>, q: int, open: Seq<char>, close: Seq<char>, acc: Seq<Val>)
    requires
        all_readable(l),
        close == ")"@ || close == "]"@ || close == "}"@,
        occurs_at(toks, q, seq_tokens(l) + seq![close]),
    ensures
        read_list_at(toks, q, open, close, acc) == Ok::<(Seq<Val>, int), Fault>((acc + l, q + seq_tokens(l).len() + 1)),
    decreases l, 1int,
{
    if l.len() == 0 {
        assert(seq_tokens(l) + seq![close] =~= seq![close]);
        assert(toks[q] == close) by {
            assert(toks.subrange(q, q + 1)[0] == toks[q]);
        }
        assert(acc + l =~= acc);
    } else {
        let x = l[0];
        let rest = l.subrange(1, l.len() as int);
        let px = print_tokens(x);
        assert(seq_tokens(l) + seq![close] =~= px + (seq_tokens(rest) + seq![close]));
        lemma_occurs_split(toks, q, px, seq_tokens(rest) + seq![close]);
        lemma_first_token(x);
        assert(toks[q] == px[0]) by {
            assert(toks.subrange(q, q + px.len())[0] == toks[q]);
        }
        law_read_printed_at(x, toks, q);
        lemma_read_items(rest, toks, q + px.len(), open, close, acc.push(x));
        assert(acc.push(x) + rest =~= acc + l);
    }
}

/// The tokens of hash-map entries with readable keys and values, followed by `}`, read as
/// their keys and values after `acc`, and reading ends just past the brace.
proof fn lemma_read_entries(e: Seq<(Seq<char>, Val)>, toks: Seq<Seq<char>>, q: int, acc: Seq<Val>)
    requires
        entries_readable(e),
        occurs_at(toks, q, entry_tokens(e) + seq!["}"@]),
    ensures
        read_list_at(toks, q, "{"@, "}"@, acc) == Ok::<(Seq<Val>, int), Fault>((acc + flat(e), q + entry_tokens(e).len() + 1)),
    decreases e, 1int,
{
    reveal_strlit("}");
    if e.len() == 0 {
        assert(entry_tokens(e) + seq!["}"@] =~= seq!["}"@]);
        assert(toks[q] == "}"@) by {
            assert(toks.subrange(q, q + 1)[0] == toks[q]);
        }
        assert(acc + flat(e) =~= acc);
    } else {
        let k = e[0].0;
        let v = e[0].1;
        let rest = e.subrange(1, e.len() as int);
        let kv = key_value(k);
        let pv = print_tokens(v);
        assert(entry_tokens(e) + seq!["}"@] =~= seq![key_text(k)] + (pv + (entry_tokens(rest) + seq!["}"@])));
        lemma_occurs_split(toks, q, seq![key_text(k)], pv + (entry_tokens(rest) + seq!["}"@]));
        lemma_occurs_split(toks, q + 1, pv, entry_tokens(rest) + seq!["}"@]);
        lemma_key_token(k);
        assert(toks[q] == key_text(k)) by {
            assert(toks.subrange(q, q + 1)[0] == toks[q]);
        }
        lemma_read_atom(kv, toks, q);
        lemma_atom_token(kv);
        lemma_plain_token(toks[q]);
        lemma_first_token(v);
        assert(toks[q + 1] == pv[0]) by {
            assert(toks.subrange(q + 1, q + 1 + pv.len())[0] == toks[q + 1]);
        }
        law_read_printed_at(v, toks, q + 1);
        lemma_read_entries(rest, toks, q + 1 + pv.len(), acc.push(kv).push(v));
        assert(acc.push(kv).push(v) + flat(rest) =~= acc + flat(e));
        assert(read_list_at(toks, q + 1, "{"@, "}"@, acc.push(kv)) == read_list_at(toks, q + 1 + pv.len(), "{"@, "}"@, acc.push(kv).push(v)));
    }
}

proof fn lemma_flat(e: Seq<(Seq<char>, Val)>)
    ensures
        flat(e).len() == 2 * e.len(),
        forall|i: int| 0 <= i < e.len() ==> #[trigger] flat(e)[2 * i] == key_value(e[i].0) && flat(e)[2 * i + 1] == e[i].1,
    decreases e.len(),
{
    if e.len() > 0 {
        let rest = e.subrange(1, e.len() as int);
        lemma_flat(rest);
        assert forall|i: int| 0 <= i < e.len() implies #[trigger] flat(e)[2 * i] == key_value(e[i].0) && flat(e)[2 * i + 1] == e[i].1 by {
            if i > 0 {
                assert(flat(e)[2 * i] == flat(rest)[2 * (i - 1)]);
                assert(flat(e)[2 * i + 1] == flat(rest)[2 * (i - 1) + 1]);
                assert(rest[i - 1] == e[i]);
            }
        }
    }
}

proof fn lemma_entries_readable(e: Seq<(Seq<char>, Val)>)
    requires
        entries_readable(e),
    ensures
        forall|i: int| 0 <= i < e.len() ==> key_readable(#[trigger] e[i].0) && readable(e[i].1),
    decreases e.len(),
{
    if e.len() > 0 {
        let rest = e.subrange(1, e.len() as int);
        lemma_entries_readable(rest);
        assert forall|i: int| 0 <= i < e.len() implies key_readable(#[trigger] e[i].0) && readable(e[i].1) by {
            if i > 0 {
                assert(rest[i - 1] == e[i]);
            }
        }
    }
}

proof fn lemma_pairs(e: Seq<(Seq<char>, Val)>, i: int)
    requires
        0 <= i <= e.len(),
        keys_unique(e),
        flat(e).len() == 2 * e.len(),
        forall|j: int| 0 <= j < e.len() ==> #[trigger] flat(e)[2 * j] == key_value(e[j].0) && flat(e)[2 * j + 1] == e[j].1,
        forall|j: int| 0 <= j < e.len() ==> key_readable(#[trigger] e[j].0) && readable(e[j].1),
    ensures
        map_pairs(flat(e), 2 * i, e.take(i)) == Ok::<Seq<(Seq<char>, Val)>, Fault>(e),
    decreases e.len() - i,
{
    if i == e.len() {
        assert(e.take(i) =~= e);
    } else {
        let k = e[i].0;
        assert(key_readable(e[i].0));
        assert(flat(e)[2 * i] == key_value(e[i].0));
        lemma_key_token(k);
        let acc = e.take(i);
        lemma_find_key(acc, k);
        let j = crate::equality::find_key(acc, k);
        if j >= 0 {
            assert(acc[j] == e[j]);
            assert(e[j].0 == e[i].0);
            assert(false);
        }
        assert(assoc_insert(acc, k, e[i].1) =~= e.take(i + 1));
        lemma_pairs(e, i + 1);
        assert(2 * i + 2 == 2 * (i + 1));
    }
}

/// The keys and values of readable entries with unique keys read as the hash-map of those
/// entries.
proof fn lemma_read_flat(e: Seq<(Seq<char>, Val)>)
    requires
        keys_unique(e),
        entries_readable(e),
    ensures
        read_map_spec(flat(e)) == Ok::<Val, Fault>(Val::HashMap(e, None)),
{
    lemma_flat(e);
    lemma_entries_readable(e);
    lemma_pairs(e, 0);
    assert(e.take(0) =~= Seq::<(Seq<char>, Val)>::empty());
}

/// The tokens of a readable value, as the printer writes it, read as that value, and
/// reading ends just past them.
pub proof fn law_read_printed_tokens(x: Val)
    requires
        readable(x),
    ensures
        read_form_at(print_tokens(x), 0) == Ok::<(Val, int), Fault>((x, print_tokens(x).len() as int)),
{
    let t = print_tokens(x);
    assert(t.subrange(0, t.len() as int) =~= t);
    law_read_printed_at(x, t, 0);
}

/// Reading the text that the printer writes for a readable value gives back that value,
/// wherever the token pattern splits that text into the printer's tokens.
pub proof fn law_read_str_printed(x: Val)
    requires
        readable(x),
    ensures
        tokens_of(pr(x, true, Seq::empty(), 0)) == Some(print_tokens(x))
            ==> read_str_spec(pr(x, true, Seq::empty(), 0)) == Ok::<Val, Fault>(x),
{
    lemma_first_token(x);
    law_read_printed_tokens(x);
}

} // verus!
