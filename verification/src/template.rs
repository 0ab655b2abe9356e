//! Expansion of segment URL templates: `$RepresentationID$` and the numeric
//! identifiers `$Number$`, `$Bandwidth$` and `$Time$`, each of the latter
//! with an optional printf-style format.
use vstd::prelude::*;
use crate::model::Representation;
use crate::text::{is_digit, replace, replace_all, starts_with, to_chars, to_string};

verus! {

/// What a template is expanded with: the representation and the position of
/// one segment.
pub struct FragementDescriptor<'a> {
    pub number: u64,
    pub representation: &'a Representation,
    pub time: u64,
    pub repeat: u64,
}

/// What `sprintf::vsprintf` returns for `format` with `value` as its only
/// argument: the formatted text, or `None` where it reports an error.
pub uninterp spec fn printf_output(format: Seq<char>, value: u64) -> Option<Seq<char>>;

/// How many decimal digits stand at the end of `s`.
pub open spec fn trailing_digits(s: Seq<char>) -> nat
    decreases s.len(),
{
    if s.len() == 0 || !is_digit(s.last()) {
        0
    } else {
        1 + trailing_digits(s.drop_last())
    }
}

/// No run of decimal digits in `s` is longer than nine, so every number
/// written in it is below 2^31.
pub open spec fn digit_runs_short(s: Seq<char>) -> bool
    decreases s.len(),
{
    s.len() == 0 || (digit_runs_short(s.drop_last()) && trailing_digits(s) < 10)
}

/// Formats `value` with `sprintf::vsprintf`. The result is the text that
/// `vsprintf` returns, or `None` where it returns an error. Formats with a
/// number of ten digits or more are left out: `vsprintf` reads widths into
/// 32 bits.
#[verifier::external_body]
fn printf(format: &str, value: u64) -> (r: Option<String>)
    requires
        digit_runs_short(format@),
    ensures
        text_of(r) == printf_output(format@, value),
{
    let args: [&dyn sprintf::Printf; 1] = [&value];
    sprintf::vsprintf(format, &args).ok()
}

pub open spec fn text_of(r: Option<String>) -> Option<Seq<char>> {
    match r {
        Some(s) => Some(s@),
        None => None,
    }
}

pub open spec fn chars_of(r: Option<Vec<char>>) -> Option<Seq<char>> {
    match r {
        Some(s) => Some(s@),
        None => None,
    }
}

/// The format that a token carries behind its identifier; a bare identifier
/// is formatted as `%llu`.
pub open spec fn token_format(token: Seq<char>, ident: Seq<char>) -> Seq<char> {
    if token.len() == ident.len() {
        "%llu"@
    } else {
        token.skip(ident.len() as int)
    }
}

/// The text that stands for `value` under a token, or `None` where the
/// token's format is not accepted.
pub open spec fn token_text(token: Seq<char>, ident: Seq<char>, value: u64) -> Option<Seq<char>> {
    let format = token_format(token, ident);
    if digit_runs_short(format) {
        printf_output(format, value)
    } else {
        None
    }
}

/// `text` with every `$token$` replaced by `replacement`.
pub open spec fn substituted(text: Seq<char>, token: Seq<char>, replacement: Seq<char>) -> Seq<
    char,
> {
    replace_all(text, seq!['$'] + token + seq!['$'], replacement)
}

/// The scan of `template` from `pos` on. `open_at` is where the token that
/// is being read began, `None` between tokens; `text` is the template with
/// the tokens read so far replaced. A token that begins with `ident` is
/// replaced, wherever it occurs in `text`, by `value` in the token's
/// format; any other token stays, and so does a token without its closing
/// `$`. A format that is not accepted ends the scan with `None`.
pub open spec fn scan(
    template: Seq<char>,
    ident: Seq<char>,
    value: u64,
    pos: int,
    open_at: Option<int>,
    text: Seq<char>,
) -> Option<Seq<char>>
    decreases template.len() - pos,
{
    if pos < 0 || pos >= template.len() {
        Some(text)
    } else if template[pos] != '$' {
        scan(template, ident, value, pos + 1, open_at, text)
    } else {
        match open_at {
            None => scan(template, ident, value, pos + 1, Some(pos + 1), text),
            Some(from) => {
                let token = template.subrange(from, pos);
                if ident.is_prefix_of(token) {
                    match token_text(token, ident, value) {
                        Some(shown) => scan(
                            template,
                            ident,
                            value,
                            pos + 1,
                            None,
                            substituted(text, token, shown),
                        ),
                        None => None,
                    }
                } else {
                    scan(template, ident, value, pos + 1, None, text)
                }
            },
        }
    }
}

/// `template` with the tokens of the identifier `ident` replaced by `value`.
pub open spec fn with_number(template: Seq<char>, ident: Seq<char>, value: u64) -> Option<
    Seq<char>,
> {
    scan(template, ident, value, 0, None, template)
}

/// The expansion of `template` for a representation and a segment: the
/// representation's identifier first, then number, bandwidth and time.
pub open spec fn expansion(
    template: Seq<char>,
    id: Seq<char>,
    bandwidth: u64,
    number: u64,
    time: u64,
) -> Option<Seq<char>> {
    let named = replace_all(template, "$RepresentationID$"@, id);
    match with_number(named, "Number"@, number) {
        None => None,
        Some(numbered) => match with_number(numbered, "Bandwidth"@, bandwidth) {
            None => None,
            Some(rated) => with_number(rated, "Time"@, time),
        },
    }
}

/// Whether no run of digits in `s` is longer than nine.
pub fn has_short_digit_runs(s: &Vec<char>) -> (r: bool)
    ensures
        r == digit_runs_short(s@),
{
    let mut run: usize = 0;
    let mut i: usize = 0;
    while i < s.len()
        invariant
            i <= s.len(),
            run == trailing_digits(s@.take(i as int)),
            run < 10,
            digit_runs_short(s@.take(i as int)),
        decreases s.len() - i,
    {
        let c = s[i];
        proof {
            assert(s@.take(i + 1).drop_last() =~= s@.take(i as int));
            assert(s@.take(i + 1).last() == c);
        }
        if c >= '0' && c <= '9' {
            run += 1;
        } else {
            run = 0;
        }
        if run >= 10 {
            proof {
                lemma_long_run_stays(s@, i + 1);
            }
            return false;
        }
        i += 1;
    }
    proof {
        assert(s@.take(i as int) =~= s@);
    }
    true
}

/// A run of digits that is too long in a prefix is too long in the whole.
pub proof fn lemma_long_run_stays(s: Seq<char>, n: int)
    requires
        0 <= n <= s.len(),
        !digit_runs_short(s.take(n)),
    ensures
        !digit_runs_short(s),
    decreases s.len() - n,
{
    if n < s.len() {
        assert(s.take(n + 1).drop_last() =~= s.take(n));
        lemma_long_run_stays(s, n + 1);
    } else {
        assert(s.take(n) =~= s);
    }
}

/// The text that replaces a token of the identifier `ident`: `value` in the
/// token's own format.
pub fn format_token(token: &Vec<char>, ident: &Vec<char>, value: u64) -> (r: Option<Vec<char>>)
    requires
        ident@.is_prefix_of(token@),
    ensures
        chars_of(r) == token_text(token@, ident@, value),
{
    let mut format: Vec<char> = Vec::new();
    if token.len() == ident.len() {
        format = to_chars("%llu");
    } else {
        let mut k: usize = ident.len();
        while k < token.len()
            invariant
                ident.len() <= k <= token.len(),
                format@ == token@.subrange(ident.len() as int, k as int),
            decreases token.len() - k,
        {
            format.push(token[k]);
            k += 1;
        }
        proof {
            assert(format@ =~= token@.skip(ident.len() as int));
        }
    }
    if !has_short_digit_runs(&format) {
        return None;
    }
    let text = to_string(&format);
    match printf(text.as_str(), value) {
        Some(shown) => Some(to_chars(shown.as_str())),
        None => None,
    }
}

/// Replaces every `$token$` in `text` by `replacement`.
pub fn substitute(text: &Vec<char>, token: &Vec<char>, replacement: &Vec<char>) -> (r: Vec<char>)
    ensures
        r@ == substituted(text@, token@, replacement@),
{
    let mut pattern: Vec<char> = Vec::new();
    pattern.push('$');
    let mut k: usize = 0;
    while k < token.len()
        invariant
            k <= token.len(),
            pattern@ == seq!['$'] + token@.take(k as int),
        decreases token.len() - k,
    {
        pattern.push(token[k]);
        k += 1;
        proof {
            assert(pattern@ =~= seq!['$'] + token@.take(k as int));
        }
    }
    pattern.push('$');
    proof {
        assert(token@.take(k as int) =~= token@);
        assert(pattern@ =~= seq!['$'] + token@ + seq!['$']);
    }
    replace(text, &pattern, replacement)
}

/// Replaces the tokens of one numeric identifier in `template` by `value`.
pub fn substitute_number(template: &Vec<char>, ident: &Vec<char>, value: u64) -> (r: Option<
    Vec<char>,
>)
    ensures
        chars_of(r) == with_number(template@, ident@, value),
{
    let mut text: Vec<char> = template.clone();
    let mut token: Vec<char> = Vec::new();
    let mut started: bool = false;
    let ghost mut from: int = 0;
    let mut pos: usize = 0;
    while pos < template.len()
        invariant
            pos <= template.len(),
            started ==> 0 <= from <= pos && token@ == template@.subrange(from, pos as int),
            !started ==> token@.len() == 0,
            scan(
                template@,
                ident@,
                value,
                pos as int,
                if started {
                    Some(from)
                } else {
                    None
                },
                text@,
            ) == with_number(template@, ident@, value),
        decreases template.len() - pos,
    {
        let c = template[pos];
        if c == '$' {
            if started {
                if starts_with(&token, ident) {
                    match format_token(&token, ident, value) {
                        Some(shown) => {
                            text = substitute(&text, &token, &shown);
                        },
                        None => {
                            return None;
                        },
                    }
                }
                started = false;
                token.clear();
            } else {
                started = true;
                proof {
                    from = pos + 1;
                    assert(token@ =~= template@.subrange(from, pos + 1));
                }
            }
        } else if started {
            token.push(c);
            proof {
                assert(token@ =~= template@.subrange(from, pos + 1));
            }
        }
        pos += 1;
    }
    Some(text)
}

/// Replaces the tokens of one numeric identifier in `template` by `value`,
/// each in its own format; a bare identifier is written in decimal.
pub fn replace_with_printf_format(template: String, identifier: &str, value: u64) -> (r: Option<
    String,
>)
    ensures
        text_of(r) == with_number(template@, identifier@, value),
{
    let chars = to_chars(template.as_str());
    let ident = to_chars(identifier);
    match substitute_number(&chars, &ident, value) {
        Some(text) => Some(to_string(&text)),
        None => None,
    }
}

/// Expands a segment URL template for one segment of a representation.
/// Returns `None` where a token's format is not accepted.
pub fn expand_segment_template(
    template_string: &str,
    fragement_descriptor: &FragementDescriptor,
) -> (r: Option<String>)
    ensures
        text_of(r) == expansion(
            template_string@,
            fragement_descriptor.representation.id@,
            fragement_descriptor.representation.bandwidth,
            fragement_descriptor.number,
            fragement_descriptor.time,
        ),
{
    let template = to_chars(template_string);
    let id = to_chars(fragement_descriptor.representation.id.as_str());
    let named = replace(&template, &to_chars("$RepresentationID$"), &id);
    let numbered = match substitute_number(&named, &to_chars("Number"), fragement_descriptor.number) {
        Some(t) => t,
        None => {
            return None;
        },
    };
    let rated = match substitute_number(
        &numbered,
        &to_chars("Bandwidth"),
        fragement_descriptor.representation.bandwidth,
    ) {
        Some(t) => t,
        None => {
            return None;
        },
    };
    match substitute_number(&rated, &to_chars("Time"), fragement_descriptor.time) {
        Some(t) => Some(to_string(&t)),
        None => None,
    }
}

} // verus!
