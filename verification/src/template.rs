//! Command templates: the text that stands for an argument, the placeholder
//! `$i` of the argument at index `i`, and the substitution of all arguments
//! into a template.

use crate::osc::{arg_views, lemma_arg_views, ArgView, Color, OscArg, TimeTag};
use crate::text::{
    append, chars_of, decimal, push_decimal, push_signed_decimal, replace_all, replaced,
    signed_decimal, string_of,
};
use vstd::prelude::*;

verus! {

/// The placeholder of the argument at `index`: `$` and the decimal index.
pub open spec fn placeholder(index: nat) -> Seq<char> {
    seq!['$'] + decimal(index)
}

/// `text` between two double quotes.
pub open spec fn quoted(text: Seq<char>) -> Seq<char> {
    seq!['"'] + text + seq!['"']
}

/// Whether `text` starts and ends with a double quote of its own.
pub open spec fn is_quoted(text: Seq<char>) -> bool {
    text.len() >= 2 && text.first() == '"' && text.last() == '"'
}

/// The text `seconds.fractional` of a time tag.
pub open spec fn time_text(t: TimeTag) -> Seq<char> {
    decimal(t.seconds as nat) + seq!['.'] + decimal(t.fractional as nat)
}

/// The text `rgba(red, green, blue, alpha)` of a colour.
pub open spec fn color_text(c: Color) -> Seq<char> {
    seq!['r', 'g', 'b', 'a', '('] + decimal(c.red as nat) + seq![',', ' '] + decimal(
        c.green as nat,
    ) + seq![',', ' '] + decimal(c.blue as nat) + seq![',', ' '] + decimal(c.alpha as nat)
        + seq![')']
}

/// The text `true` or `false`.
pub open spec fn bool_text(b: bool) -> Seq<char> {
    if b {
        seq!['t', 'r', 'u', 'e']
    } else {
        seq!['f', 'a', 'l', 's', 'e']
    }
}

/// The text that replaces the placeholder of `arg`, or `None` for the kinds
/// that are not substituted: blobs, MIDI messages and arrays.
///
/// Every value is quoted; `Nil` and `Inf` are the bare words `null` and `inf`.
pub open spec fn rendering(arg: ArgView) -> Option<Seq<char>> {
    match arg {
        ArgView::Int(v) => Some(quoted(signed_decimal(v as int))),
        ArgView::Float(text) => Some(quoted(text)),
        ArgView::String(text) => Some(quoted(text)),
        ArgView::Time(t) => Some(quoted(time_text(t))),
        ArgView::Long(v) => Some(quoted(signed_decimal(v as int))),
        ArgView::Double(text) => Some(quoted(text)),
        ArgView::Char(c) => Some(quoted(seq![c])),
        ArgView::Color(c) => Some(quoted(color_text(c))),
        ArgView::Bool(b) => Some(quoted(bool_text(b))),
        ArgView::Nil => Some(seq!['n', 'u', 'l', 'l']),
        ArgView::Inf => Some(seq!['i', 'n', 'f']),
        ArgView::Blob(_) => None,
        ArgView::Midi(_) => None,
        ArgView::Array(_) => None,
    }
}

/// One pass: every placeholder of `index` in `text` replaced by the rendering
/// of `arg`; `text` itself where `arg` is not substituted.
pub open spec fn pass(text: Seq<char>, index: nat, arg: ArgView) -> Seq<char> {
    match rendering(arg) {
        Some(r) => replaced(text, placeholder(index), r),
        None => text,
    }
}

/// `text` after the passes for the arguments from index `lo` up to, and
/// without, index `hi`, in ascending order.
pub open spec fn passes(text: Seq<char>, args: Seq<ArgView>, lo: nat, hi: nat) -> Seq<char>
    decreases hi,
{
    if hi <= lo || hi > args.len() {
        text
    } else {
        pass(passes(text, args, lo, (hi - 1) as nat), (hi - 1) as nat, args[hi - 1])
    }
}

/// The template with all arguments substituted: one pass for each argument,
/// by ascending index.
pub open spec fn substituted(template: Seq<char>, args: Seq<ArgView>) -> Seq<char> {
    passes(template, args, 0, args.len())
}

/// The characters of the placeholder of the argument at `index`.
pub fn placeholder_chars(index: usize) -> (out: Vec<char>)
    ensures
        out@ == placeholder(index as nat),
{
    let mut out: Vec<char> = Vec::new();
    out.push('$');
    push_decimal(&mut out, index as u64);
    out
}

fn quote(body: &Vec<char>) -> (out: Vec<char>)
    ensures
        out@ == quoted(body@),
{
    let mut out: Vec<char> = Vec::new();
    out.push('"');
    append(&mut out, body);
    out.push('"');
    assert(out@ =~= quoted(body@));
    out
}

fn time_chars(t: &TimeTag) -> (out: Vec<char>)
    ensures
        out@ == time_text(*t),
{
    let mut out: Vec<char> = Vec::new();
    push_decimal(&mut out, t.seconds as u64);
    out.push('.');
    push_decimal(&mut out, t.fractional as u64);
    assert(out@ =~= time_text(*t));
    out
}

fn color_chars(c: &Color) -> (out: Vec<char>)
    ensures
        out@ == color_text(*c),
{
    let mut out: Vec<char> = vec!['r', 'g', 'b', 'a', '('];
    push_decimal(&mut out, c.red as u64);
    out.push(',');
    out.push(' ');
    push_decimal(&mut out, c.green as u64);
    out.push(',');
    out.push(' ');
    push_decimal(&mut out, c.blue as u64);
    out.push(',');
    out.push(' ');
    push_decimal(&mut out, c.alpha as u64);
    out.push(')');
    assert(out@ =~= color_text(*c));
    out
}

fn bool_chars(b: bool) -> (out: Vec<char>)
    ensures
        out@ == bool_text(b),
{
    if b {
        vec!['t', 'r', 'u', 'e']
    } else {
        vec!['f', 'a', 'l', 's', 'e']
    }
}

/// The characters that replace the placeholder of `arg`, or `None` where
/// `arg` is not substituted.
pub fn rendered_chars(arg: &OscArg) -> (r: Option<Vec<char>>)
    ensures
        match r {
            Some(chars) => rendering(arg@) == Some(chars@),
            None => rendering(arg@) is None,
        },
{
    match arg {
        OscArg::Int(v) => {
            let mut body: Vec<char> = Vec::new();
            push_signed_decimal(&mut body, *v as i64);
            Some(quote(&body))
        },
        OscArg::Long(v) => {
            let mut body: Vec<char> = Vec::new();
            push_signed_decimal(&mut body, *v);
            Some(quote(&body))
        },
        OscArg::Float(text) => Some(quote(&chars_of(text.as_str()))),
        OscArg::Double(text) => Some(quote(&chars_of(text.as_str()))),
        OscArg::String(text) => Some(quote(&chars_of(text.as_str()))),
        OscArg::Char(c) => Some(quote(&vec![*c])),
        OscArg::Bool(b) => Some(quote(&bool_chars(*b))),
        OscArg::Time(t) => Some(quote(&time_chars(t))),
        OscArg::Color(c) => Some(quote(&color_chars(c))),
        OscArg::Nil => Some(vec!['n', 'u', 'l', 'l']),
        OscArg::Inf => Some(vec!['i', 'n', 'f']),
        OscArg::Blob(_) => None,
        OscArg::Midi(_) => None,
        OscArg::Array(_) => None,
    }
}

/// The text that replaces the placeholder of `arg`, or `None` where `arg` is
/// not substituted.
pub fn render_arg(arg: &OscArg) -> (r: Option<String>)
    ensures
        match r {
            Some(text) => rendering(arg@) == Some(text@),
            None => rendering(arg@) is None,
        },
{
    match rendered_chars(arg) {
        Some(chars) => Some(string_of(&chars)),
        None => None,
    }
}

/// Substitutes the arguments into the template, one pass for each argument
/// by ascending index.
pub fn substitute_chars(template: Vec<char>, args: &Vec<OscArg>) -> (out: Vec<char>)
    ensures
        out@ == substituted(template@, arg_views(args@)),
{
    let ghost views = arg_views(args@);
    let ghost start = template@;
    let mut text = template;
    let mut i: usize = 0;
    while i < args.len()
        invariant
            i <= args.len(),
            views == arg_views(args@),
            text@ == passes(start, views, 0, i as nat),
        decreases args.len() - i,
    {
        proof {
            lemma_arg_views(args@);
        }
        match rendered_chars(&args[i]) {
            Some(r) => {
                let from = placeholder_chars(i);
                text = replace_all(&text, &from, &r);
            },
            None => {},
        }
        i += 1;
    }
    proof {
        lemma_arg_views(args@);
    }
    text
}

/// Substitutes the arguments into the template: every `$i` becomes the
/// rendering of the argument at index `i`.
pub fn substitute(template: &str, args: &Vec<OscArg>) -> (out: String)
    ensures
        out@ == substituted(template@, arg_views(args@)),
{
    let chars = substitute_chars(chars_of(template), args);
    string_of(&chars)
}

} // verus!
