//! Printing values as text.
use vstd::prelude::*;
use crate::text::{chars_of, format_i64, int_text, owned, push_char, push_str};
use crate::types::{entry_views, group_views, lemma_view_shape, views, MalType, Val, KW_SUFFIX};

verus! {

broadcast use group_views;

/// How a character of a string is written between quotes.
pub open spec fn escape_char(c: char) -> Seq<char> {
    if c == '\\' {
        seq!['\\', '\\']
    } else if c == '"' {
        seq!['\\', '"']
    } else if c == '\n' {
        seq!['\\', 'n']
    } else {
        seq![c]
    }
}

/// A string's characters with backslashes, double quotes and newlines escaped.
pub open spec fn escape(s: Seq<char>) -> Seq<char>
    decreases s.len(),
{
    if s.len() == 0 {
        Seq::empty()
    } else {
        escape(s.drop_last()) + escape_char(s.last())
    }
}

/// A string written as a string literal: escaped, between double quotes.
pub open spec fn quoted(s: Seq<char>) -> Seq<char> {
    seq!['"'] + escape(s) + seq!['"']
}

/// How a hash-map key is written: a keyword's text, or a quoted string.
pub open spec fn key_text(k: Seq<char>) -> Seq<char> {
    if k.len() > 0 && k.last() == KW_SUFFIX {
        k.drop_last()
    } else {
        quoted(k)
    }
}

/// The text of a value. Strings are quoted and escaped when `readably` holds. An atom is
/// written with its content, taken from `atoms`; `depth` bounds how many atoms are opened
/// one inside another, beyond which (and for an atom that is not in `atoms`) an atom is
/// written `(atom ...)`.
pub open spec fn pr(v: Val, readably: bool, atoms: Seq<Val>, depth: nat) -> Seq<char>
    decreases depth, v, 0int,
{
    match v {
        Val::Nil => "nil"@,
        Val::Bool(b) => if b { "true"@ } else { "false"@ },
        Val::Number(n) => int_text(n as int),
        Val::Symbol(s) => s,
        Val::Str(s) => if readably { quoted(s) } else { s },
        Val::Keyword(k) => k,
        Val::List(l, _) => "("@ + pr_items(l, readably, atoms, depth) + ")"@,
        Val::Vector(l, _) => "["@ + pr_items(l, readably, atoms, depth) + "]"@,
        Val::HashMap(e, _) => "{"@ + pr_entries(e, readably, atoms, depth) + "}"@,
        Val::BuiltinFunc(..) => "#<builtin>"@,
        Val::Lambda { params, body, .. } =>
            "(fn* ("@ + pr_items(params, readably, atoms, depth) + ") "@ + pr(*body, readably, atoms, depth) + ")"@,
        Val::Atom(a) => if depth > 0 && a < atoms.len() {
            "(atom "@ + pr(atoms[a as int], readably, atoms, (depth - 1) as nat) + ")"@
        } else {
            "(atom ...)"@
        },
    }
}

/// The texts of values, separated by single spaces.
pub open spec fn pr_items(s: Seq<Val>, readably: bool, atoms: Seq<Val>, depth: nat) -> Seq<char>
    decreases depth, s, 1int,
{
    if s.len() == 0 {
        Seq::empty()
    } else if s.len() == 1 {
        pr(s[0], readably, atoms, depth)
    } else {
        pr_items(s.subrange(0, s.len() - 1), readably, atoms, depth) + " "@ + pr(s[s.len() - 1], readably, atoms, depth)
    }
}

/// The texts of hash-map entries (key, a space, value), separated by single spaces.
pub open spec fn pr_entries(s: Seq<(Seq<char>, Val)>, readably: bool, atoms: Seq<Val>, depth: nat) -> Seq<char>
    decreases depth, s, 1int,
{
    if s.len() == 0 {
        Seq::empty()
    } else if s.len() == 1 {
        key_text(s[0].0) + " "@ + pr(s[0].1, readably, atoms, depth)
    } else {
        pr_entries(s.subrange(0, s.len() - 1), readably, atoms, depth) + " "@
            + key_text(s[s.len() - 1].0) + " "@ + pr(s[s.len() - 1].1, readably, atoms, depth)
    }
}

/// A string written as a string literal: escaped, between double quotes.
pub fn print_string_readably(string: &str) -> (r: String)
    ensures
        r@ == quoted(string@),
{
    let cs = chars_of(string);
    let mut out = owned("\"");
    proof { reveal_strlit("\""); }
    let mut i: usize = 0;
    while i < cs.len()
        invariant
            i <= cs.len(),
            cs@ == string@,
            out@ == seq!['"'] + escape(cs@.take(i as int)),
        decreases cs.len() - i,
    {
        let c = cs[i];
        if c == '\\' {
            push_char(&mut out, '\\');
            push_char(&mut out, '\\');
        } else if c == '"' {
            push_char(&mut out, '\\');
            push_char(&mut out, '"');
        } else if c == '\n' {
            push_char(&mut out, '\\');
            push_char(&mut out, 'n');
        } else {
            push_char(&mut out, c);
        }
        assert(cs@.take(i + 1).drop_last() == cs@.take(i as int));
        assert(out@ =~= seq!['"'] + escape(cs@.take(i + 1)));
        i = i + 1;
    }
    push_char(&mut out, '"');
    assert(cs@.take(cs@.len() as int) == cs@);
    out
}

/// The text of a value; see [`pr`]. Atoms are opened at most as deep as there are atoms.
pub fn pr_str(mal: &MalType, readably: bool, atoms: &Vec<MalType>) -> (r: String)
    ensures
        r@ == pr(mal@, readably, views(atoms@), atoms@.len() as nat),
{
    let mut out = String::new();
    write_value(&mut out, mal, readably, atoms, atoms.len());
    out
}

fn write_value(out: &mut String, mal: &MalType, readably: bool, atoms: &Vec<MalType>, depth: usize)
    ensures
        final(out)@ == old(out)@ + pr(mal@, readably, views(atoms@), depth as nat),
    decreases depth, mal, 0int,
{
    proof {
        lemma_view_shape(mal);
        reveal_strlit("nil"); reveal_strlit("true"); reveal_strlit("false");
        reveal_strlit("("); reveal_strlit(")"); reveal_strlit("["); reveal_strlit("]");
        reveal_strlit("{"); reveal_strlit("}"); reveal_strlit("#<builtin>");
        reveal_strlit("(fn* ("); reveal_strlit(") "); reveal_strlit("(atom "); reveal_strlit("(atom ...)");
    }
    match mal {
        MalType::Nil => push_str(out, "nil"),
        MalType::Bool(b) => if *b { push_str(out, "true") } else { push_str(out, "false") },
        MalType::Number(n) => {
            let t = format_i64(*n);
            push_str(out, t.as_str());
        },
        MalType::Symbol(s) => push_str(out, s.as_str()),
        MalType::String(s) => {
            if readably {
                let t = print_string_readably(s.as_str());
                push_str(out, t.as_str());
            } else {
                push_str(out, s.as_str());
            }
        },
        MalType::Keyword(k) => push_str(out, k.as_str()),
        MalType::List(l, _) => {
            push_str(out, "(");
            write_items(out, l, readably, atoms, depth);
            push_str(out, ")");
        },
        MalType::Vector(l, _) => {
            push_str(out, "[");
            write_items(out, l, readably, atoms, depth);
            push_str(out, "]");
        },
        MalType::HashMap(e, _) => {
            push_str(out, "{");
            write_entries(out, e, readably, atoms, depth);
            push_str(out, "}");
        },
        MalType::BuiltinFunc(..) => push_str(out, "#<builtin>"),
        MalType::Lambda { params, body, .. } => {
            push_str(out, "(fn* (");
            write_items(out, params, readably, atoms, depth);
            push_str(out, ") ");
            write_value(out, body, readably, atoms, depth);
            push_str(out, ")");
        },
        MalType::Atom(a) => {
            if depth > 0 && *a < atoms.len() {
                push_str(out, "(atom ");
                assert(views(atoms@)[*a as int] == atoms@[*a as int]@);
                write_value(out, &atoms[*a], readably, atoms, depth - 1);
                push_str(out, ")");
            } else {
                push_str(out, "(atom ...)");
            }
        },
    }
}

fn write_items(out: &mut String, items: &Vec<MalType>, readably: bool, atoms: &Vec<MalType>, depth: usize)
    ensures
        final(out)@ == old(out)@ + pr_items(views(items@), readably, views(atoms@), depth as nat),
    decreases depth, items, 1int,
{
    let ghost start = out@;
    let ghost s = views(items@);
    let mut i: usize = 0;
    while i < items.len()
        invariant
            i <= items.len(),
            s == views(items@),
            out@ == start + pr_items(s.take(i as int), readably, views(atoms@), depth as nat),
        decreases items.len() - i,
    {
        proof {
            reveal_strlit(" ");
            assert(decreases_to!(items => items@));
            assert(decreases_to!(items@ => items@[i as int]));
            assert(s.take(i + 1).subrange(0, i as int) == s.take(i as int));
            assert(s.take(i + 1)[i as int] == items@[i as int]@);
        }
        if i > 0 {
            push_str(out, " ");
        }
        write_value(out, &items[i], readably, atoms, depth);
        proof {
            if i == 0 {
                assert(out@ =~= start + pr_items(s.take(1), readably, views(atoms@), depth as nat));
            } else {
                assert(out@ =~= start + pr_items(s.take(i + 1), readably, views(atoms@), depth as nat));
            }
        }
        i = i + 1;
    }
    assert(s.take(items.len() as int) == s);
}

fn write_entries(out: &mut String, entries: &Vec<(String, MalType)>, readably: bool, atoms: &Vec<MalType>, depth: usize)
    ensures
        final(out)@ == old(out)@ + pr_entries(entry_views(entries@), readably, views(atoms@), depth as nat),
    decreases depth, entries, 1int,
{
    let ghost start = out@;
    let ghost s = entry_views(entries@);
    let mut i: usize = 0;
    while i < entries.len()
        invariant
            i <= entries.len(),
            s == entry_views(entries@),
            out@ == start + pr_entries(s.take(i as int), readably, views(atoms@), depth as nat),
        decreases entries.len() - i,
    {
        proof {
            reveal_strlit(" ");
            assert(decreases_to!(entries => entries@));
            assert(decreases_to!(entries@ => entries@[i as int]));
            assert(decreases_to!(entries@[i as int] => entries@[i as int].1));
            assert(s.take(i + 1).subrange(0, i as int) == s.take(i as int));
            assert(s.take(i + 1)[i as int] == (entries@[i as int].0@, entries@[i as int].1@));
        }
        if i > 0 {
            push_str(out, " ");
        }
        let k = &entries[i].0;
        if crate::text::ends_with_char(k.as_str(), KW_SUFFIX) {
            let cs = chars_of(k.as_str());
            let n = cs.len() - 1;
            let ghost before = out@;
            let mut j: usize = 0;
            while j < n
                invariant
                    cs@ == k@,
                    n + 1 == cs@.len(),
                    j <= n,
                    out@ == before + cs@.take(j as int),
                decreases cs.len() - j,
            {
                push_char(out, cs[j]);
                assert(cs@.take(j + 1) == cs@.take(j as int).push(cs@[j as int]));
                j = j + 1;
            }
            assert(cs@.take(j as int) == k@.drop_last());
        } else {
            let t = print_string_readably(k.as_str());
            push_str(out, t.as_str());
        }
        push_str(out, " ");
        write_value(out, &entries[i].1, readably, atoms, depth);
        proof {
            assert(out@ =~= start + pr_entries(s.take(i + 1), readably, views(atoms@), depth as nat));
        }
        i = i + 1;
    }
    assert(s.take(entries.len() as int) == s);
}

} // verus!
