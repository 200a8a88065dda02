//! The interactive menu helper, as a pure validator: one attempt at parsing
//! a numbered selection, and the rendering of the prompt.  The caller loops
//! on rejection and re-prompts.

use vstd::prelude::*;
use vstd::string::*;
use crate::model::ValidationError;
use crate::text::all_digits;
use crate::text::dec_spec;
use crate::text::digit_val;
use crate::text::digits_val;
use crate::text::is_digit_char;
use crate::text::render_usize;
use crate::text::trim;
use crate::text::trim_spec;

verus! {

/// The digits of an integer text: an optional leading plus sign is dropped.
pub open spec fn digits_part(t: Seq<char>) -> Seq<char> {
    if t.len() > 0 && t[0] == '+' {
        t.drop_first()
    } else {
        t
    }
}

/// Whether `t` is the text of a non-negative integer: at least one digit,
/// optionally preceded by a plus sign.
pub open spec fn is_integer_text(t: Seq<char>) -> bool {
    digits_part(t).len() > 0 && all_digits(digits_part(t))
}

/// The menu choice that the raw input line denotes, if any: the line is
/// trimmed and read as an integer, and accepted exactly when that integer
/// lies in `[1, option_count]`.  The result is the zero-based position.
pub open spec fn choice_spec(raw: Seq<char>, option_count: nat) -> Option<nat> {
    let t = trim_spec(raw);
    if is_integer_text(t) && 1 <= digits_val(digits_part(t)) && digits_val(digits_part(t))
        <= option_count {
        Some((digits_val(digits_part(t)) - 1) as nat)
    } else {
        None
    }
}

/// Parses one menu selection.  The raw line is accepted exactly when, after
/// trimming, it is an integer between 1 and `option_count`; the returned
/// index is zero-based.  Anything else is malformed input, on which the
/// caller re-prompts.
pub fn parse_choice(raw: &str, option_count: usize) -> (r: Result<usize, ValidationError>)
    ensures
        match r {
            Ok(i) => choice_spec(raw@, option_count as nat) == Some(i as nat) && i < option_count,
            Err(e) => choice_spec(raw@, option_count as nat) is None && e
                == ValidationError::MalformedInput,
        },
{
    let trimmed = trim(raw);
    let t = trimmed.as_str();
    let n = t.unicode_len();
    let start: usize = if n > 0 && t.get_char(0) == '+' {
        1
    } else {
        0
    };
    proof {
        if start == 1 {
            assert(digits_part(t@) =~= t@.subrange(1, n as int));
        } else {
            assert(digits_part(t@) =~= t@.subrange(0, n as int));
        }
    }
    if n == start {
        return Err(ValidationError::MalformedInput);
    }
    let mut i: usize = start;
    let mut val: usize = 0;
    let mut too_big = false;
    proof {
        assert(t@.subrange(start as int, start as int) =~= Seq::<char>::empty());
    }
    while i < n
        invariant
            start <= i <= n,
            n == t@.len(),
            t@ == trim_spec(raw@),
            digits_part(t@) == t@.subrange(start as int, n as int),
            all_digits(t@.subrange(start as int, i as int)),
            !too_big ==> val == digits_val(t@.subrange(start as int, i as int)) && val
                <= option_count,
            too_big ==> digits_val(t@.subrange(start as int, i as int)) > option_count,
        decreases n - i,
    {
        let c = t.get_char(i);
        let cu = c as u32;
        if cu < 48 || cu > 57 {
            proof {
                assert(!is_digit_char(t@[i as int]));
                assert(digits_part(t@)[i - start] == t@[i as int]);
                assert(!all_digits(digits_part(t@)));
            }
            return Err(ValidationError::MalformedInput);
        }
        let dv = (cu - 48) as usize;
        proof {
            let prefix = t@.subrange(start as int, i as int);
            let next = t@.subrange(start as int, i as int + 1);
            assert(next.drop_last() =~= prefix);
            assert(next.last() == t@[i as int]);
            assert(digit_val(t@[i as int]) == dv as nat);
            assert(digits_val(next) == digits_val(prefix) * 10 + dv);
            assert(all_digits(next)) by {
                assert(forall|k: int|
                    0 <= k < next.len() - 1 ==> next[k] == prefix[k]);
            }
        }
        if too_big {
            proof {
                let prefix = t@.subrange(start as int, i as int);
                assert(digits_val(prefix) * 10 >= digits_val(prefix));
            }
        } else if val > (usize::MAX - dv) / 10 {
            proof {
                let m = (usize::MAX - dv) as int;
                assert(m == 10 * (m / 10) + m % 10);
                assert(0 <= m % 10 < 10);
                assert(val * 10 + dv > usize::MAX);
            }
            too_big = true;
        } else {
            proof {
                let m = (usize::MAX - dv) as int;
                assert(m == 10 * (m / 10) + m % 10);
                assert(0 <= m % 10 < 10);
                assert(val * 10 <= m);
            }
            val = val * 10 + dv;
            if val > option_count {
                too_big = true;
            }
        }
        i = i + 1;
    }
    proof {
        assert(t@.subrange(start as int, n as int) == digits_part(t@));
        assert(is_integer_text(t@));
    }
    if too_big {
        Err(ValidationError::MalformedInput)
    } else if val == 0 {
        Err(ValidationError::MalformedInput)
    } else {
        Ok(val - 1)
    }
}

/// One attempt of the menu helper: the label at the selected position, or
/// the validation error on which the caller re-prompts.
pub fn select_label<'a>(options: &Vec<&'a str>, raw: &str) -> (r: Result<&'a str, ValidationError>)
    ensures
        choice_spec(raw@, options@.len() as nat) matches Some(i) ==> r == Ok::<
            &'a str,
            ValidationError,
        >(options@[i as int]),
        choice_spec(raw@, options@.len() as nat) is None ==> r == Err::<&'a str, ValidationError>(
            ValidationError::MalformedInput,
        ),
{
    match parse_choice(raw, options.len()) {
        Ok(i) => Ok(options[i]),
        Err(e) => Err(e),
    }
}

/// One numbered option line after another, each as its one-based position,
/// a dot and a space, the label, and a line break.
pub open spec fn options_block(opts: Seq<&'static str>) -> Seq<char>
    decreases opts.len(),
{
    if opts.len() == 0 {
        Seq::<char>::empty()
    } else {
        options_block(opts.drop_last()) + dec_spec(opts.len() as nat) + ". "@ + opts.last()@
            + "\n"@
    }
}

/// The full menu prompt: title, description, a heading, and the numbered
/// option lines.
pub open spec fn menu_text_spec(
    title: Seq<char>,
    description: Seq<char>,
    opts: Seq<&'static str>,
) -> Seq<char> {
    title + "\n"@ + description + "\n"@ + "Options:\n"@ + options_block(opts)
}

/// Renders the prompt that the menu helper shows before reading a selection.
pub fn render_menu(title: &str, description: &str, options: &Vec<&'static str>) -> (r: String)
    ensures
        r@ == menu_text_spec(title@, description@, options@),
{
    let mut r = title.to_owned();
    r.append("\n");
    r.append(description);
    r.append("\n");
    r.append("Options:\n");
    let n = options.len();
    let mut i: usize = 0;
    proof {
        assert(options@.subrange(0, 0) =~= Seq::<&'static str>::empty());
        assert(r@ =~= title@ + "\n"@ + description@ + "\n"@ + "Options:\n"@ + options_block(
            options@.subrange(0, 0),
        ));
    }
    while i < n
        invariant
            i <= n,
            n == options@.len(),
            r@ == title@ + "\n"@ + description@ + "\n"@ + "Options:\n"@ + options_block(
                options@.subrange(0, i as int),
            ),
        decreases n - i,
    {
        let num = render_usize(i + 1);
        r.append(num.as_str());
        r.append(". ");
        r.append(options[i]);
        r.append("\n");
        proof {
            let t = options@.subrange(0, i as int + 1);
            assert(t.drop_last() =~= options@.subrange(0, i as int));
            assert(t.last() == options@[i as int]);
            assert(r@ =~= title@ + "\n"@ + description@ + "\n"@ + "Options:\n"@ + options_block(
                t,
            ));
        }
        i = i + 1;
    }
    proof {
        assert(options@.subrange(0, n as int) =~= options@);
    }
    r
}

} // verus!
