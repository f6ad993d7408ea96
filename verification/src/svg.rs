//! The part of SVG the icon loader reads: the `viewBox` of the root element and the
//! commands and numbers of path data. Numbers are handed on as text; turning them into
//! coordinates is the caller's work.

use vstd::prelude::*;
use crate::text::push_char;

verus! {

/// An ASCII letter.
pub open spec fn is_letter(c: char) -> bool {
    ('A' <= c <= 'Z') || ('a' <= c <= 'z')
}

/// A character that can belong to a number in path data.
pub open spec fn is_number_char(c: char) -> bool {
    ('0' <= c <= '9') || c == '-' || c == '+' || c == '.'
}

/// A character with the Unicode `White_Space` property.
pub open spec fn is_white_space(c: char) -> bool {
    let v = c as u32;
    (0x09 <= v <= 0x0D) || v == 0x20 || v == 0x85 || v == 0xA0 || v == 0x1680 || (0x2000 <= v
        <= 0x200A) || v == 0x2028 || v == 0x2029 || v == 0x202F || v == 0x205F || v == 0x3000
}

/// A character that separates numbers in path data and in a `viewBox`.
pub open spec fn is_separator(c: char) -> bool {
    c == ',' || is_white_space(c)
}

fn letter(c: char) -> (r: bool)
    ensures
        r == is_letter(c),
{
    ('A' <= c && c <= 'Z') || ('a' <= c && c <= 'z')
}

fn number_char(c: char) -> (r: bool)
    ensures
        r == is_number_char(c),
{
    ('0' <= c && c <= '9') || c == '-' || c == '+' || c == '.'
}

fn separator(c: char) -> (r: bool)
    ensures
        r == is_separator(c),
{
    let v: u32 = c as u32;
    c == ',' || (0x09 <= v && v <= 0x0D) || v == 0x20 || v == 0x85 || v == 0xA0 || v == 0x1680
        || (0x2000 <= v && v <= 0x200A) || v == 0x2028 || v == 0x2029 || v == 0x202F || v
        == 0x205F || v == 0x3000
}

/// The spans found so far, ends excluded, the start of the number being read (-1 when
/// none is), and whether every character so far was allowed.
pub type LexState = (Seq<(int, int)>, int, bool);

/// `spans` with the number that starts at `start` and ends at `end` added, if one is open.
pub open spec fn close_number(spans: Seq<(int, int)>, start: int, end: int) -> Seq<(int, int)> {
    if start >= 0 {
        spans.push((start, end))
    } else {
        spans
    }
}

/// The lexer's state after reading the first `n` characters of `text`. A letter is a
/// command of its own; `+` and `-` start a new number; other number characters extend the
/// open number or start one; commas and white space end the open number; any other
/// character is an error.
pub open spec fn lex(text: Seq<char>, n: int) -> LexState
    decreases n,
{
    if n <= 0 {
        (Seq::empty(), -1, true)
    } else {
        let (spans, start, ok) = lex(text, n - 1);
        let i = n - 1;
        let c = text[i];
        if !ok {
            (spans, start, false)
        } else if is_letter(c) {
            (close_number(spans, start, i).push((i, i + 1)), -1, true)
        } else if is_number_char(c) {
            if (c == '-' || c == '+') && start >= 0 {
                (close_number(spans, start, i), i, true)
            } else if start >= 0 {
                (spans, start, true)
            } else {
                (spans, i, true)
            }
        } else if is_separator(c) {
            (close_number(spans, start, i), -1, true)
        } else {
            (spans, start, false)
        }
    }
}

/// The first character of `text` that path data may not hold, if any.
pub open spec fn first_unsupported(text: Seq<char>) -> int
    decreases text.len(),
{
    if text.len() == 0 {
        -1
    } else if first_unsupported(text.drop_last()) >= 0 {
        first_unsupported(text.drop_last())
    } else if is_letter(text.last()) || is_number_char(text.last()) || is_separator(text.last()) {
        -1
    } else {
        text.len() - 1
    }
}

/// The token spans of path data `text`, when all of it may appear in path data.
pub open spec fn path_spans(text: Seq<char>) -> Seq<(int, int)> {
    close_number(lex(text, text.len() as int).0, lex(text, text.len() as int).1, text.len() as int)
}

/// A token of path data: a command letter or the text of a number.
pub enum PathToken {
    Command(char),
    Number(String),
}

/// Whether `tokens` are the tokens that `spans` mark in `text`.
pub open spec fn tokens_at(tokens: Seq<PathToken>, spans: Seq<(int, int)>, text: Seq<char>) -> bool {
    &&& tokens.len() == spans.len()
    &&& forall|k: int|
        0 <= k < tokens.len() ==> match #[trigger] tokens[k] {
            PathToken::Command(c) => spans[k].1 == spans[k].0 + 1 && c == text[spans[k].0]
                && is_letter(c),
            PathToken::Number(number) => number@ == text.subrange(spans[k].0, spans[k].1),
        }
}

proof fn lemma_lex_state(text: Seq<char>, n: int)
    requires
        0 <= n <= text.len(),
    ensures
        lex(text, n).2 <==> first_unsupported(text.take(n)) < 0,
        lex(text, n).2 ==> -1 <= lex(text, n).1 < n,
        lex(text, n).2 && lex(text, n).1 >= 0 ==> forall|j: int|
            lex(text, n).1 <= j < n ==> is_number_char(#[trigger] text[j]),
        !lex(text, n).2 ==> 0 <= first_unsupported(text.take(n)) < n && !is_letter(
            text[first_unsupported(text.take(n))],
        ) && !is_number_char(text[first_unsupported(text.take(n))]) && !is_separator(
            text[first_unsupported(text.take(n))],
        ),
    decreases n,
{
    if n > 0 {
        lemma_lex_state(text, n - 1);
        assert(text.take(n).drop_last() =~= text.take(n - 1));
        assert(text.take(n).last() == text[n - 1]);
        if first_unsupported(text.take(n - 1)) >= 0 {
            assert(text.take(n)[first_unsupported(text.take(n - 1))] == text[first_unsupported(
                text.take(n - 1),
            )]);
        }
    }
}

/// Splits path data into command letters and number texts. A `+` or `-` inside a number
/// starts the next one; commas and white space only separate. Fails with the position of
/// the first character that is none of these.
pub fn tokenize_path(path: &str) -> (r: Result<Vec<PathToken>, usize>)
    ensures
        first_unsupported(path@) < 0 ==> (r matches Ok(tokens) && tokens_at(
            tokens@,
            path_spans(path@),
            path@,
        )),
        first_unsupported(path@) >= 0 ==> r == Err::<Vec<PathToken>, usize>(
            first_unsupported(path@) as usize,
        ),
{
    let length = path.unicode_len();
    let mut tokens: Vec<PathToken> = Vec::new();
    let mut number = String::new();
    let mut open = false;
    let mut i: usize = 0;
    proof {
        lemma_lex_state(path@, 0);
    }
    while i < length
        invariant
            length == path@.len(),
            i <= length,
            lex(path@, i as int).2,
            open <==> lex(path@, i as int).1 >= 0,
            open ==> number@ == path@.subrange(lex(path@, i as int).1, i as int),
            !open ==> number@.len() == 0,
            tokens_at(tokens@, lex(path@, i as int).0, path@),
        decreases length - i,
    {
        proof {
            lemma_lex_state(path@, i as int);
            lemma_lex_state(path@, i + 1);
        }
        let ghost spans = lex(path@, i as int).0;
        let ghost start = lex(path@, i as int).1;
        let c = path.get_char(i);
        let is_command = letter(c);
        let in_number = number_char(c);
        let ends_number = separator(c);
        if !is_command && !in_number && !ends_number {
            proof {
                assert(path@.take(i + 1).drop_last() =~= path@.take(i as int));
                assert(path@.take(i + 1).last() == c);
                lemma_first_unsupported_prefix(path@, i + 1);
            }
            return Err(i);
        }
        if open && (is_command || ends_number || c == '-' || c == '+') {
            tokens.push(PathToken::Number(number));
            number = String::new();
            open = false;
            proof {
                assert(tokens_at(tokens@, close_number(spans, start, i as int), path@));
            }
        }
        if is_command {
            tokens.push(PathToken::Command(c));
        } else if in_number {
            if !open {
                open = true;
            }
            push_char(&mut number, c);
        }
        proof {
            let (next_spans, next_start, next_ok) = lex(path@, i + 1);
            assert(next_ok);
            if open {
                assert(path@[i as int] == c);
                if next_start == i {
                    assert(path@.subrange(next_start, i + 1) =~= seq![c]);
                } else {
                    assert(next_start == start);
                    assert(path@.subrange(start, i + 1) =~= path@.subrange(start, i as int).push(c));
                }
                assert(number@ =~= path@.subrange(next_start, i + 1));
            }
            assert(tokens_at(tokens@, next_spans, path@));
        }
        i = i + 1;
    }
    proof {
        assert(path@.take(length as int) =~= path@);
        lemma_lex_state(path@, length as int);
    }
    if open {
        tokens.push(PathToken::Number(number));
    }
    Ok(tokens)
}

/// Once a prefix of `text` holds a character path data may not hold, that character is
/// the first such in all of `text`.
proof fn lemma_first_unsupported_prefix(text: Seq<char>, n: int)
    requires
        0 <= n <= text.len(),
        first_unsupported(text.take(n)) >= 0,
    ensures
        first_unsupported(text) == first_unsupported(text.take(n)),
    decreases text.len() - n,
{
    if n < text.len() {
        assert(text.take(n + 1).drop_last() =~= text.take(n));
        lemma_first_unsupported_prefix(text, n + 1);
    } else {
        assert(text.take(n) =~= text);
    }
}

/// The first position at which `pattern` occurs in `text` at or after `i`, or -1.
pub open spec fn find_from(text: Seq<char>, pattern: Seq<char>, i: int) -> int
    decreases text.len() + 1 - i,
{
    if i < 0 || i + pattern.len() > text.len() {
        -1
    } else if text.subrange(i, i + pattern.len()) == pattern {
        i
    } else {
        find_from(text, pattern, i + 1)
    }
}

/// The first position at which `pattern` occurs in `text`, or -1.
pub open spec fn find(text: Seq<char>, pattern: Seq<char>) -> int {
    find_from(text, pattern, 0)
}

/// Why the `viewBox` of an SVG document could not be found.
#[derive(Clone, Copy, Debug, PartialEq, Eq, Structural)]
pub enum ViewBoxError {
    /// There is no `<svg` element.
    MissingRoot,
    /// The `<svg` element's start tag has no closing `>`.
    IncompleteRoot,
    /// The start tag has no `viewBox="` attribute.
    MissingViewBox,
    /// The `viewBox` value has no closing quote.
    IncompleteViewBox,
}

/// The text of the `viewBox` attribute in the start tag of the first `<svg` element of
/// `source`, or why there is none.
pub open spec fn view_box_text(source: Seq<char>) -> Result<Seq<char>, ViewBoxError> {
    let root = find(source, seq!['<', 's', 'v', 'g']);
    if root < 0 {
        Err(ViewBoxError::MissingRoot)
    } else {
        let close = find_from(source, seq!['>'], root);
        if close < 0 {
            Err(ViewBoxError::IncompleteRoot)
        } else {
            let tag = source.subrange(root, close + 1);
            let attribute = find(tag, seq!['v', 'i', 'e', 'w', 'B', 'o', 'x', '=', '"']);
            if attribute < 0 {
                Err(ViewBoxError::MissingViewBox)
            } else {
                let value = tag.skip(attribute + 9);
                let quote = find(value, seq!['"']);
                if quote < 0 {
                    Err(ViewBoxError::IncompleteViewBox)
                } else {
                    Ok(value.take(quote))
                }
            }
        }
    }
}

/// The fields found in the first `n` characters of `text`, and the field being read.
pub open spec fn fields_state(text: Seq<char>, n: int) -> (Seq<Seq<char>>, Seq<char>)
    decreases n,
{
    if n <= 0 {
        (Seq::empty(), Seq::empty())
    } else {
        let (fields, current) = fields_state(text, n - 1);
        let c = text[n - 1];
        if is_separator(c) {
            if current.len() > 0 {
                (fields.push(current), Seq::empty())
            } else {
                (fields, current)
            }
        } else {
            (fields, current.push(c))
        }
    }
}

/// The nonempty pieces of `text` between commas and white space, in order.
pub open spec fn fields(text: Seq<char>) -> Seq<Seq<char>> {
    let (fields, current) = fields_state(text, text.len() as int);
    if current.len() > 0 {
        fields.push(current)
    } else {
        fields
    }
}

fn chars_of(text: &str) -> (r: Vec<char>)
    ensures
        r@ == text@,
{
    let length = text.unicode_len();
    let mut r: Vec<char> = Vec::new();
    let mut i: usize = 0;
    while i < length
        invariant
            length == text@.len(),
            i <= length,
            r@ == text@.take(i as int),
        decreases length - i,
    {
        r.push(text.get_char(i));
        assert(r@ =~= text@.take(i + 1));
        i = i + 1;
    }
    assert(text@.take(length as int) =~= text@);
    r
}

/// A match found by `find_from` lies at or after `i` and inside `text`.
pub proof fn lemma_find_from(text: Seq<char>, pattern: Seq<char>, i: int)
    ensures
        find_from(text, pattern, i) == -1 || (i <= find_from(text, pattern, i)
            && find_from(text, pattern, i) + pattern.len() <= text.len() && text.subrange(
            find_from(text, pattern, i),
            find_from(text, pattern, i) + pattern.len(),
        ) == pattern),
    decreases text.len() + 1 - i,
{
    if !(i < 0 || i + pattern.len() > text.len()) && text.subrange(i, i + pattern.len()) != pattern {
        lemma_find_from(text, pattern, i + 1);
    }
}

/// Whether `pattern` occurs in `text` at position `at`.
fn matches_at(text: &Vec<char>, at: usize, pattern: &Vec<char>) -> (r: bool)
    requires
        at + pattern@.len() <= text@.len(),
    ensures
        r == (text@.subrange(at as int, at + pattern@.len()) == pattern@),
{
    let n = pattern.len();
    let t = text.len();
    let mut k: usize = 0;
    while k < n
        invariant
            n == pattern@.len(),
            t == text@.len(),
            at + n <= text@.len(),
            k <= n,
            forall|j: int| 0 <= j < k ==> text@[at + j] == pattern@[j],
        decreases n - k,
    {
        if text[at + k] != pattern[k] {
            assert(text@.subrange(at as int, at + pattern@.len())[k as int] != pattern@[k as int]);
            return false;
        }
        k = k + 1;
    }
    assert(text@.subrange(at as int, at + pattern@.len()) =~= pattern@);
    true
}

/// The first position at or after `from` at which `pattern` occurs in `text`.
fn find_chars(text: &Vec<char>, pattern: &Vec<char>, from: usize) -> (r: Option<usize>)
    requires
        from <= text@.len(),
        pattern@.len() > 0,
    ensures
        match r {
            Some(at) => at as int == find_from(text@, pattern@, from as int) && from <= at && at
                + pattern@.len() <= text@.len(),
            None => find_from(text@, pattern@, from as int) == -1,
        },
{
    let n = text.len();
    let m = pattern.len();
    let mut at = from;
    while m <= n && at <= n - m
        invariant
            n == text@.len(),
            m == pattern@.len(),
            m > 0,
            from <= at,
            at <= n,
            find_from(text@, pattern@, from as int) == find_from(text@, pattern@, at as int),
        decreases n + 1 - at,
    {
        if matches_at(text, at, pattern) {
            return Some(at);
        }
        at = at + 1;
    }
    None
}

/// The `viewBox` text of an SVG document split into its fields, or why it could not be
/// found.
pub fn view_box_fields(source: &str) -> (r: Result<Vec<String>, ViewBoxError>)
    ensures
        match view_box_text(source@) {
            Ok(text) => r matches Ok(found) && found@.len() == fields(text).len() && forall|k: int|
                0 <= k < found@.len() ==> #[trigger] found@[k]@ == fields(text)[k],
            Err(error) => r == Err::<Vec<String>, ViewBoxError>(error),
        },
{
    let text = chars_of(source);
    let root_pattern = vec!['<', 's', 'v', 'g'];
    let close_pattern = vec!['>'];
    let attribute_pattern = vec!['v', 'i', 'e', 'w', 'B', 'o', 'x', '=', '"'];
    let quote_pattern = vec!['"'];
    assert(root_pattern@ =~= seq!['<', 's', 'v', 'g']);
    assert(close_pattern@ =~= seq!['>']);
    assert(attribute_pattern@ =~= seq!['v', 'i', 'e', 'w', 'B', 'o', 'x', '=', '"']);
    assert(quote_pattern@ =~= seq!['"']);
    let root = match find_chars(&text, &root_pattern, 0) {
        Some(at) => at,
        None => {
            return Err(ViewBoxError::MissingRoot);
        },
    };
    proof {
        lemma_find_from(text@, seq!['>'], root as int);
    }
    let close = match find_chars(&text, &close_pattern, root) {
        Some(at) => at,
        None => {
            return Err(ViewBoxError::IncompleteRoot);
        },
    };
    let text_length = text.len();
    let mut tag: Vec<char> = Vec::new();
    let mut i = root;
    while i <= close
        invariant
            root <= i <= close + 1,
            text_length == text@.len(),
            close < text@.len(),
            tag@ == text@.subrange(root as int, i as int),
        decreases close + 1 - i,
    {
        tag.push(text[i]);
        assert(tag@ =~= text@.subrange(root as int, i + 1));
        i = i + 1;
    }
    let attribute = match find_chars(&tag, &attribute_pattern, 0) {
        Some(at) => at,
        None => {
            return Err(ViewBoxError::MissingViewBox);
        },
    };
    let value_start = attribute + 9;
    let mut value: Vec<char> = Vec::new();
    let mut j = value_start;
    while j < tag.len()
        invariant
            value_start <= j <= tag@.len(),
            value@ == tag@.subrange(value_start as int, j as int),
        decreases tag@.len() - j,
    {
        value.push(tag[j]);
        assert(value@ =~= tag@.subrange(value_start as int, j + 1));
        j = j + 1;
    }
    assert(value@ =~= tag@.skip(value_start as int));
    let quote = match find_chars(&value, &quote_pattern, 0) {
        Some(at) => at,
        None => {
            return Err(ViewBoxError::IncompleteViewBox);
        },
    };
    let ghost quoted_text = value@.take(quote as int);
    let mut found: Vec<String> = Vec::new();
    let mut current = String::new();
    let mut reading = false;
    let mut k: usize = 0;
    while k < quote
        invariant
            quote <= value@.len(),
            k <= quote,
            quoted_text == value@.take(quote as int),
            fields_state(quoted_text, k as int).1 == current@,
            reading <==> current@.len() > 0,
            found@.len() == fields_state(quoted_text, k as int).0.len(),
            forall|m: int|
                0 <= m < found@.len() ==> #[trigger] found@[m]@ == fields_state(
                    quoted_text,
                    k as int,
                ).0[m],
        decreases quote - k,
    {
        let c = value[k];
        assert(quoted_text[k as int] == c);
        if separator(c) {
            if reading {
                found.push(current);
                current = String::new();
                reading = false;
            }
        } else {
            push_char(&mut current, c);
            reading = true;
        }
        k = k + 1;
    }
    if reading {
        found.push(current);
    }
    Ok(found)
}

/// The values of the ` d="` attributes of `text` from position `from` on, in order; none
/// when one of them has no closing quote.
pub open spec fn path_data_from(text: Seq<char>, from: int) -> Option<Seq<Seq<char>>>
    decreases text.len() + 1 - from,
{
    let at = find_from(text, seq![' ', 'd', '=', '"'], from);
    if from < 0 || at < 0 {
        Some(Seq::empty())
    } else {
        let start = at + 4;
        let close = find_from(text, seq!['"'], start);
        if close < 0 {
            None
        } else {
            proof {
                lemma_find_from(text, seq![' ', 'd', '=', '"'], from);
                lemma_find_from(text, seq!['"'], start);
            }
            match path_data_from(text, close + 1) {
                Some(rest) => Some(seq![text.subrange(start, close)] + rest),
                None => None,
            }
        }
    }
}

/// The path data of an SVG document: the value of every ` d="` attribute, in order. Fails
/// when a value has no closing quote.
pub fn path_data_values(source: &str) -> (r: Option<Vec<String>>)
    ensures
        match path_data_from(source@, 0) {
            Some(values) => r matches Some(found) && found@.len() == values.len() && forall|k: int|
                0 <= k < found@.len() ==> #[trigger] found@[k]@ == values[k],
            None => r is None,
        },
{
    let text = chars_of(source);
    let attribute_pattern = vec![' ', 'd', '=', '"'];
    let quote_pattern = vec!['"'];
    assert(attribute_pattern@ =~= seq![' ', 'd', '=', '"']);
    assert(quote_pattern@ =~= seq!['"']);
    let mut found: Vec<String> = Vec::new();
    let mut position: usize = 0;
    let text_length = text.len();
    let ghost mut collected: Seq<Seq<char>> = Seq::empty();
    loop
        invariant
            text@ == source@,
            text_length == text@.len(),
            attribute_pattern@ == seq![' ', 'd', '=', '"'],
            quote_pattern@ == seq!['"'],
            position <= text@.len(),
            found@.len() == collected.len(),
            forall|k: int| 0 <= k < found@.len() ==> #[trigger] found@[k]@ == collected[k],
            path_data_from(source@, 0) == match path_data_from(source@, position as int) {
                Some(rest) => Some(collected + rest),
                None => None::<Seq<Seq<char>>>,
            },
        ensures
            path_data_from(source@, position as int) == Some(Seq::<Seq<char>>::empty()),
        decreases text@.len() + 1 - position,
    {
        let at = match find_chars(&text, &attribute_pattern, position) {
            Some(at) => at,
            None => {
                break;
            },
        };
        let start = at + 4;
        let close = match find_chars(&text, &quote_pattern, start) {
            Some(close) => close,
            None => {
                return None;
            },
        };
        let mut value = String::new();
        let mut i = start;
        while i < close
            invariant
                start <= i <= close,
                close < text@.len(),
                value@ == text@.subrange(start as int, i as int),
            decreases close - i,
        {
            push_char(&mut value, text[i]);
            assert(value@ =~= text@.subrange(start as int, i + 1));
            i = i + 1;
        }
        proof {
            let rest = path_data_from(source@, close + 1);
            if rest is Some {
                assert(seq![value@] + rest->0 =~= seq![value@] + rest->0);
                assert(collected + (seq![value@] + rest->0) =~= collected.push(value@) + rest->0);
            }
            collected = collected.push(value@);
        }
        found.push(value);
        position = close + 1;
    }
    proof {
        assert(collected + Seq::<Seq<char>>::empty() =~= collected);
    }
    Some(found)
}

} // verus!
