//! What the collections commands decide around their questions: answers
//! taken without asking, and how typed answers are read.
use vstd::prelude::*;

use crate::json::JsonValue;
use crate::text::{
    chars_of, normalize_identifier, normalized_identifier, str_views, string_of, trim, trim_seq,
};

verus! {

/// How a command may ask: not at all, and whether to answer yes then.
#[derive(PartialEq, Eq, Structural, Debug, Clone, Copy)]
pub struct UiOpts {
    pub non_interactive: bool,
    pub yes: bool,
}

/// Why an identifier cannot be had.
#[derive(PartialEq, Eq, Structural, Debug, Clone, Copy)]
pub enum PromptError {
    /// None was given, and the command may not ask.
    Required,
    /// What was typed normalizes to nothing.
    Invalid,
}

/// The answer to a yes/no question that is taken without asking: when the
/// command may not ask, yes if `--yes` was given, else the default; `None`
/// when the question is to be asked.
pub fn preset_confirmation(ui: &UiOpts, default: bool) -> (r: Option<bool>)
    ensures
        r == if ui.non_interactive {
            Some(ui.yes || default)
        } else {
            None::<bool>
        },
{
    if ui.non_interactive {
        Some(ui.yes || default)
    } else {
        None
    }
}

/// An identifier given on the command line, normalized. `Ok(None)` when
/// none usable was given and it is to be asked for; refused when the
/// command may not ask.
pub fn given_identifier(input: &Option<String>, ui: &UiOpts) -> (r: Result<
    Option<String>,
    PromptError,
>)
    ensures
        match input {
            Some(v) if normalized_identifier(v@).len() > 0 => r matches Ok(Some(x)) && x@
                == normalized_identifier(v@),
            _ => if ui.non_interactive {
                r == Err::<Option<String>, PromptError>(PromptError::Required)
            } else {
                r == Ok::<Option<String>, PromptError>(None)
            },
        },
{
    if let Some(v) = input {
        let n = normalize_identifier(v.as_str());
        if !n.as_str().is_empty() {
            return Ok(Some(n));
        }
    }
    if ui.non_interactive {
        Err(PromptError::Required)
    } else {
        Ok(None)
    }
}

/// A choice given on the command line, taken as it is. `Ok(None)` when none
/// was given and it is to be asked for; refused when the command may not
/// ask.
pub fn given_choice(input: Option<String>, ui: &UiOpts) -> (r: Result<Option<String>, PromptError>)
    ensures
        match input {
            Some(v) => r == Ok::<Option<String>, PromptError>(Some(v)),
            None => if ui.non_interactive {
                r == Err::<Option<String>, PromptError>(PromptError::Required)
            } else {
                r == Ok::<Option<String>, PromptError>(None)
            },
        },
{
    match input {
        Some(v) => Ok(Some(v)),
        None => if ui.non_interactive {
            Err(PromptError::Required)
        } else {
            Ok(None)
        },
    }
}

/// Whether a question whose answer has no default may be asked: refused when
/// the command may not ask.
pub fn question_allowed(ui: &UiOpts) -> (r: Result<(), PromptError>)
    ensures
        r == if ui.non_interactive {
            Err::<(), PromptError>(PromptError::Required)
        } else {
            Ok::<(), PromptError>(())
        },
{
    if ui.non_interactive {
        Err(PromptError::Required)
    } else {
        Ok(())
    }
}

/// A typed identifier, normalized; refused when it normalizes to nothing.
pub fn entered_identifier(raw: &str) -> (r: Result<String, PromptError>)
    ensures
        if normalized_identifier(raw@).len() > 0 {
            r matches Ok(x) && x@ == normalized_identifier(raw@)
        } else {
            r == Err::<String, PromptError>(PromptError::Invalid)
        },
{
    let n = normalize_identifier(raw);
    if n.as_str().is_empty() {
        Err(PromptError::Invalid)
    } else {
        Ok(n)
    }
}

/// A typed optional answer: trimmed, and none when blank.
pub fn optional_answer(raw: &str) -> (r: Option<String>)
    ensures
        match r {
            Some(x) => trim_seq(raw@).len() > 0 && x@ == trim_seq(raw@),
            None => trim_seq(raw@).len() == 0,
        },
{
    let t = trim(raw);
    if t.as_str().is_empty() {
        None
    } else {
        Some(t)
    }
}

/// The pieces of `s` between the separators, empty ones included: what
/// `str::split` yields.
pub open spec fn split_all(s: Seq<char>, sep: char) -> Seq<Seq<char>>
    decreases s.len(),
{
    if s.len() == 0 {
        seq![Seq::<char>::empty()]
    } else {
        let p = split_all(s.drop_last(), sep);
        if s.last() == sep {
            p.push(Seq::empty())
        } else {
            p.update(p.len() - 1, p.last().push(s.last()))
        }
    }
}

proof fn lemma_split_all_nonempty(s: Seq<char>, sep: char)
    ensures
        split_all(s, sep).len() > 0,
    decreases s.len(),
{
    if s.len() > 0 {
        lemma_split_all_nonempty(s.drop_last(), sep);
    }
}

/// The normalized, non-empty forms of the pieces, in order.
pub open spec fn normalized_pieces(p: Seq<Seq<char>>) -> Seq<Seq<char>> {
    p.map_values(|x: Seq<char>| normalized_identifier(x)).filter(|x: Seq<char>| x.len() > 0)
}

proof fn lemma_normalized_pieces_push(p: Seq<Seq<char>>, x: Seq<char>)
    ensures
        normalized_pieces(p.push(x)) == if normalized_identifier(x).len() > 0 {
            normalized_pieces(p).push(normalized_identifier(x))
        } else {
            normalized_pieces(p)
        },
{
    let f = |x: Seq<char>| normalized_identifier(x);
    let keep = |x: Seq<char>| x.len() > 0;
    assert(p.push(x).map_values(f) == p.map_values(f).push(normalized_identifier(x)));
    p.map_values(f).lemma_filter_push(normalized_identifier(x), keep);
}

/// The identifiers of a comma-separated answer: each piece normalized, the
/// empty ones dropped.
pub fn csv_identifiers(raw: &str) -> (r: Vec<String>)
    ensures
        str_views(r@) == normalized_pieces(split_all(raw@, ',')),
{
    let v = chars_of(raw);
    let mut out: Vec<String> = Vec::new();
    let mut cur: Vec<char> = Vec::new();
    let mut i: usize = 0;
    proof {
        assert(v@.take(0) =~= Seq::<char>::empty());
        assert(split_all(Seq::<char>::empty(), ',').drop_last() =~= Seq::<Seq<char>>::empty());
        reveal_with_fuel(Seq::filter, 1);
        assert(normalized_pieces(Seq::<Seq<char>>::empty()) =~= Seq::<Seq<char>>::empty());
        assert(str_views(out@) =~= Seq::<Seq<char>>::empty());
    }
    while i < v.len()
        invariant
            i <= v.len(),
            v@ == raw@,
            split_all(v@.take(i as int), ',').len() > 0,
            cur@ == split_all(v@.take(i as int), ',').last(),
            str_views(out@) == normalized_pieces(split_all(v@.take(i as int), ',').drop_last()),
        decreases v.len() - i,
    {
        let ghost pre = v@.take(i as int);
        let ghost p = split_all(pre, ',');
        proof {
            assert(v@.take(i + 1).drop_last() == pre);
            assert(v@.take(i + 1).last() == v@[i as int]);
            lemma_normalized_pieces_push(p.drop_last(), p.last());
            assert(p.drop_last().push(p.last()) == p);
        }
        if v[i] == ',' {
            let piece = string_of(cur.as_slice());
            let n = normalize_identifier(piece.as_str());
            if !n.as_str().is_empty() {
                let ghost before = out@;
                out.push(n);
                proof {
                    assert(str_views(out@) == str_views(before).push(n@));
                }
            }
            cur = Vec::new();
            proof {
                assert(split_all(v@.take(i + 1), ',') == p.push(Seq::empty()));
                assert(p.push(Seq::<char>::empty()).drop_last() == p);
            }
        } else {
            cur.push(v[i]);
            proof {
                let q = p.update(p.len() - 1, p.last().push(v@[i as int]));
                assert(split_all(v@.take(i + 1), ',') == q);
                assert(q.drop_last() == p.drop_last());
            }
        }
        i = i + 1;
    }
    proof {
        assert(v@.take(v@.len() as int) == v@);
        lemma_split_all_nonempty(raw@, ',');
        let p = split_all(raw@, ',');
        lemma_normalized_pieces_push(p.drop_last(), p.last());
        assert(p.drop_last().push(p.last()) == p);
    }
    let piece = string_of(cur.as_slice());
    let n = normalize_identifier(piece.as_str());
    if !n.as_str().is_empty() {
        let ghost before = out@;
        out.push(n);
        proof {
            assert(str_views(out@) == str_views(before).push(n@));
        }
    }
    out
}

/// The text of a default value given on the command line: trimmed, and
/// none when blank.
pub fn default_value_text(input: Option<&str>) -> (r: Option<String>)
    ensures
        match input {
            None => r is None,
            Some(v) => match r {
                Some(x) => trim_seq(v@).len() > 0 && x@ == trim_seq(v@),
                None => trim_seq(v@).len() == 0,
            },
        },
{
    match input {
        None => None,
        Some(v) => optional_answer(v),
    }
}

/// A default value from its text: the JSON value that the text parses to,
/// or else the text itself as a string.
pub fn default_value(text: String, parsed: Option<JsonValue>) -> (r: JsonValue)
    ensures
        match parsed {
            Some(j) => r == j,
            None => r == JsonValue::Str(text),
        },
{
    match parsed {
        Some(j) => j,
        None => JsonValue::Str(text),
    }
}

} // verus!
