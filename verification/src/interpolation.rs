//! Interpolation of `${...}` segments in policy strings.

use vstd::prelude::*;
use vstd::string::StringExecFns;
use vstd::string::StrSliceExecFns;
use crate::expression::all_rule_free;
use crate::expression::Expr;
use crate::expression::ExprView;
use crate::expression::Str;
use crate::expression::StrView;
use crate::expression::views;
use crate::parser::Error;
use crate::parser::ErrorView;
use crate::text::chars_of;
use crate::text::count_char;
use crate::text::find_char;
use crate::text::find_pair;
use crate::text::first_index;
use crate::text::first_pair;
use crate::text::is_char;
use crate::text::lemma_first_index_found;
use crate::text::lemma_first_pair_found;
use crate::text::pair_at;
use crate::text::split;
use crate::text::split_from;
use crate::text::string_of;
use crate::text::trim;
use crate::text::trimmed;

verus! {

/// Why a `${...}` segment was refused. Each variant but the last carries the
/// offending expression.
#[derive(Debug, PartialEq)]
pub enum SubstitutionError {
    NestedInterpolation(String),
    InvalidCharacters(String),
    TooManySlashes(String),
    EmptyExpression,
}

/// The mathematical content of a [`SubstitutionError`].
pub enum SubstitutionErrorView {
    NestedInterpolation(Seq<char>),
    InvalidCharacters(Seq<char>),
    TooManySlashes(Seq<char>),
    EmptyExpression,
}

impl View for SubstitutionError {
    type V = SubstitutionErrorView;

    open spec fn view(&self) -> SubstitutionErrorView {
        match self {
            SubstitutionError::NestedInterpolation(s) => SubstitutionErrorView::NestedInterpolation(
                s@,
            ),
            SubstitutionError::InvalidCharacters(s) => SubstitutionErrorView::InvalidCharacters(s@),
            SubstitutionError::TooManySlashes(s) => SubstitutionErrorView::TooManySlashes(s@),
            SubstitutionError::EmptyExpression => SubstitutionErrorView::EmptyExpression,
        }
    }
}

impl SubstitutionErrorView {
    /// The message for a reader.
    pub open spec fn message(self) -> Seq<char> {
        match self {
            SubstitutionErrorView::NestedInterpolation(s) => "nested interpolation: "@ + s,
            SubstitutionErrorView::InvalidCharacters(s) => "invalid characters: "@ + s,
            SubstitutionErrorView::TooManySlashes(s) => "too many slashes: "@ + s,
            SubstitutionErrorView::EmptyExpression => "empty expression"@,
        }
    }
}

impl SubstitutionError {
    /// The message for a reader.
    pub fn to_string(&self) -> (r: String)
        ensures
            r@ == self@.message(),
    {
        match self {
            SubstitutionError::NestedInterpolation(s) => String::from_str(
                "nested interpolation: ",
            ).concat(s.as_str()),
            SubstitutionError::InvalidCharacters(s) => String::from_str(
                "invalid characters: ",
            ).concat(s.as_str()),
            SubstitutionError::TooManySlashes(s) => String::from_str("too many slashes: ").concat(
                s.as_str(),
            ),
            SubstitutionError::EmptyExpression => String::from_str("empty expression"),
        }
    }
}

/// Whether `c` is a letter or a digit of any script, as Unicode classifies it.
pub uninterp spec fn is_alphanumeric(c: char) -> bool;

/// `char::is_alphanumeric` tells whether the character is alphabetic or
/// numeric as Unicode classifies it; the answer depends on the character alone.
pub assume_specification[ char::is_alphanumeric ](c: char) -> (r: bool)
    ensures
        r == is_alphanumeric(c),
;

/// The literal that an escape stands for: `*`, `?` or `$` alone between the
/// braces, with whitespace around it allowed.
pub open spec fn special_variable(body: Seq<char>) -> Option<Seq<char>> {
    let t = trim(body);
    if t == seq!['*'] {
        Some("*"@)
    } else if t == seq!['?'] {
        Some("?"@)
    } else if t == seq!['$'] {
        Some("$"@)
    } else {
        None
    }
}

/// What stands between a pair of single or of double quotes, once the
/// whitespace around them is gone.
pub open spec fn quoted_string(s: Seq<char>) -> Option<Seq<char>> {
    let t = trim(s);
    if t.len() >= 2 && t.first() == '\'' && t.last() == '\'' {
        Some(t.subrange(1, t.len() - 1))
    } else if t.len() >= 2 && t.first() == '"' && t.last() == '"' {
        Some(t.subrange(1, t.len() - 1))
    } else {
        None
    }
}

/// The name and the default of a segment body. A body with a comma and a
/// quoted string behind it is a name with a default; any other body is a name
/// as it stands.
pub open spec fn variable_with_default(body: Seq<char>) -> (Seq<char>, Option<Seq<char>>) {
    match first_index(body, ',', 0) {
        Some(comma) => match quoted_string(trim(body.subrange(comma + 1, body.len() as int))) {
            Some(default) => (trim(body.subrange(0, comma)), Some(default)),
            None => (body, None),
        },
        None => (body, None),
    }
}

/// Whether `c` can stand in a variable name, given whether it is a letter
/// or a digit: letters, digits, `_`, `-`, `:`, `.` and `/` can.
pub open spec fn is_name_character(c: char, alphanumeric: bool) -> bool {
    alphanumeric || c == '_' || c == '-' || c == ':' || c == '.' || c == '/'
}

/// The characters of a variable name.
pub open spec fn name_char(c: char) -> bool {
    is_name_character(c, is_alphanumeric(c))
}

/// What `classes` says of the character at index `i`; a character that it
/// does not reach counts as no letter and no digit.
pub open spec fn class_at(classes: Seq<bool>, i: int) -> bool {
    0 <= i < classes.len() && classes[i]
}

/// Whether every character of `name` can stand in a variable name, where
/// `classes` tells of each character whether it is a letter or a digit.
pub open spec fn all_name_characters(name: Seq<char>, classes: Seq<bool>) -> bool {
    forall|i: int|
        0 <= i < name.len() ==> is_name_character(#[trigger] name[i], class_at(classes, i))
}

/// Whether `name` can be the name of a variable, and if not, why not,
/// where `classes` tells of each character whether it is a letter or a
/// digit. The reasons are tried in this order: the name is empty; it opens
/// a segment of its own; it holds a closing brace; it holds more than one
/// slash; it holds a character that cannot stand in a name.
pub open spec fn validated_as(name: Seq<char>, classes: Seq<bool>) -> Result<
    (),
    SubstitutionErrorView,
> {
    if name.len() == 0 {
        Err(SubstitutionErrorView::EmptyExpression)
    } else if first_pair(name, '$', '{', 0) is Some {
        Err(SubstitutionErrorView::NestedInterpolation(name))
    } else if name.contains('}') {
        Err(SubstitutionErrorView::InvalidCharacters(name))
    } else if count_char(name, '/') > 1 {
        Err(SubstitutionErrorView::TooManySlashes(name))
    } else if !all_name_characters(name, classes) {
        Err(SubstitutionErrorView::InvalidCharacters(name))
    } else {
        Ok(())
    }
}

/// Of each character of `name`, whether it is a letter or a digit.
pub open spec fn classified(name: Seq<char>) -> Seq<bool> {
    Seq::new(name.len(), |i: int| is_alphanumeric(name[i]))
}

/// Whether `name` can be the name of a variable, and if not, why not.
pub open spec fn validated(name: Seq<char>) -> Result<(), SubstitutionErrorView> {
    validated_as(name, classified(name))
}

/// `name` with `:` and `/` turned into dots.
pub open spec fn normalized(name: Seq<char>) -> Seq<char> {
    Seq::new(
        name.len(),
        |i: int|
            if name[i] == ':' || name[i] == '/' {
                '.'
            } else {
                name[i]
            },
    )
}

/// The path under which the request holds the variable `name`.
pub open spec fn variable_path(name: Seq<char>) -> Seq<char> {
    "input."@ + normalized(name)
}

/// The string literals for the pieces of a path, in order.
pub open spec fn path_literals(pieces: Seq<Seq<char>>) -> Seq<ExprView> {
    Seq::new(pieces.len(), |i: int| ExprView::plain(pieces[i]))
}

/// The expression that reads the variable `name`: the variable itself, or,
/// with a default, a lookup of its path under `input` that yields the
/// default where the path leads nowhere.
pub open spec fn variable_expr(name: Seq<char>, default: Option<Seq<char>>) -> ExprView {
    match default {
        None => ExprView::Var(variable_path(name)),
        Some(d) => ExprView::Call(
            "object.get"@,
            seq![
                ExprView::Var("input"@),
                ExprView::List(path_literals(split(normalized(name), '.'))),
                ExprView::plain(d),
            ],
        ),
    }
}

/// A format with the arguments for its placeholders.
pub type Pieces = (Seq<char>, Seq<ExprView>);

/// What one `${...}` segment with the given body adds to the format and to
/// the arguments: an escape adds its literal, a variable adds `%s` and the
/// expression that reads it.
pub open spec fn segment(body: Seq<char>) -> Result<Pieces, SubstitutionErrorView> {
    match special_variable(body) {
        Some(literal) => Ok((literal, Seq::empty())),
        None => {
            let (name, default) = variable_with_default(body);
            match validated(name) {
                Err(e) => Err(e),
                Ok(_) => Ok(("%s"@, seq![variable_expr(name, default)])),
            }
        },
    }
}

/// `rest` with `format` and `vars` in front of it.
pub open spec fn prepend(
    format: Seq<char>,
    vars: Seq<ExprView>,
    rest: Result<Pieces, SubstitutionErrorView>,
) -> Result<Pieces, SubstitutionErrorView> {
    match rest {
        Ok((f, v)) => Ok((format + f, vars + v)),
        Err(e) => Err(e),
    }
}

/// The format and the arguments for `template` from index `pos` on. Text
/// outside segments is copied; a `${` without a closing brace behind it is
/// copied with all that follows; the first segment that is refused decides
/// the error.
pub open spec fn scan(template: Seq<char>, pos: int) -> Result<Pieces, SubstitutionErrorView>
    decreases template.len() - pos,
    via scan_decreases
{
    match first_pair(template, '$', '{', pos) {
        None => Ok((template.subrange(pos, template.len() as int), Seq::empty())),
        Some(start) => match first_index(template, '}', start + 2) {
            None => Ok((template.subrange(pos, template.len() as int), Seq::empty())),
            Some(end) => match segment(template.subrange(start + 2, end)) {
                Err(e) => Err(e),
                Ok((format, vars)) => prepend(
                    template.subrange(pos, start) + format,
                    vars,
                    scan(template, end + 1),
                ),
            },
        },
    }
}

#[via_fn]
proof fn scan_decreases(template: Seq<char>, pos: int) {
    if pos >= 0 {
        lemma_first_pair_found(template, '$', '{', pos);
        match first_pair(template, '$', '{', pos) {
            Some(start) => {
                lemma_first_index_found(template, '}', start + 2);
            },
            None => {},
        }
    }
}

/// The string literal that `template` stands for: plain where no variable
/// is read, else a format with its arguments.
pub open spec fn interpolate(template: Seq<char>) -> Result<StrView, SubstitutionErrorView> {
    match scan(template, 0) {
        Err(e) => Err(e),
        Ok((format, vars)) => Ok(
            if vars.len() > 0 {
                StrView::Template(format, vars)
            } else {
                StrView::Plain(format)
            },
        ),
    }
}

/// The literal for an escape, see [`special_variable`].
pub fn handle_special_variable(expr: &str) -> (r: Option<&'static str>)
    ensures
        match special_variable(expr@) {
            Some(s) => r matches Some(x) && x@ == s,
            None => r is None,
        },
{
    let t = trimmed(expr);
    if is_char(t, '*') {
        Some("*")
    } else if is_char(t, '?') {
        Some("?")
    } else if is_char(t, '$') {
        Some("$")
    } else {
        None
    }
}

/// The content of a quoted string, see [`quoted_string`].
pub fn extract_quoted_string<'a>(s: &'a str) -> (r: Option<&'a str>)
    ensures
        match quoted_string(s@) {
            Some(d) => r matches Some(x) && x@ == d,
            None => r is None,
        },
{
    let t = trimmed(s);
    let v = chars_of(t);
    let n = v.len();
    if n >= 2 && v[0] == '\'' && v[n - 1] == '\'' {
        return Some(t.substring_char(1, n - 1));
    }
    if n >= 2 && v[0] == '"' && v[n - 1] == '"' {
        return Some(t.substring_char(1, n - 1));
    }
    None
}

/// The name and the default of a segment body, see [`variable_with_default`].
pub fn parse_variable_with_default<'a>(expr: &'a str) -> (r: (&'a str, Option<&'a str>))
    ensures
        r.0@ == variable_with_default(expr@).0,
        match variable_with_default(expr@).1 {
            Some(d) => r.1 matches Some(x) && x@ == d,
            None => r.1 is None,
        },
{
    let v = chars_of(expr);
    match find_char(&v, ',', 0) {
        Some(comma) => {
            let var_part = trimmed(expr.substring_char(0, comma));
            let default_part = trimmed(expr.substring_char(comma + 1, v.len()));
            match extract_quoted_string(default_part) {
                Some(default) => {
                    return (var_part, Some(default));
                },
                None => {},
            }
        },
        None => {},
    }
    (expr, None)
}

/// Whether `c` can stand in a variable name, given whether it is a letter
/// or a digit; see [`is_name_character`].
pub fn name_character(c: char, alphanumeric: bool) -> (r: bool)
    ensures
        r == is_name_character(c, alphanumeric),
{
    alphanumeric || c == '_' || c == '-' || c == ':' || c == '.' || c == '/'
}

/// Accepts the name of a variable or says why it is refused, where
/// `alphanumeric` tells of each character whether it is a letter or a
/// digit; see [`validated_as`].
pub fn validate_classified(expr: &str, alphanumeric: &[bool]) -> (r: Result<
    (),
    SubstitutionError,
>)
    ensures
        match validated_as(expr@, alphanumeric@) {
            Ok(_) => r is Ok,
            Err(e) => r matches Err(x) && x@ == e,
        },
{
    let v = chars_of(expr);
    let n = v.len();
    if n == 0 {
        return Err(SubstitutionError::EmptyExpression);
    }
    if find_pair(&v, '$', '{', 0).is_some() {
        return Err(SubstitutionError::NestedInterpolation(String::from_str(expr)));
    }
    proof {
        lemma_first_index_found(v@, '}', 0);
    }
    if find_char(&v, '}', 0).is_some() {
        return Err(SubstitutionError::InvalidCharacters(String::from_str(expr)));
    }
    let mut slashes: usize = 0;
    let mut allowed = true;
    let mut i: usize = 0;
    while i < n
        invariant
            i <= n,
            n == v.len(),
            slashes == count_char(v@.take(i as int), '/'),
            slashes <= i,
            allowed == all_name_characters(v@.take(i as int), alphanumeric@),
        decreases n - i,
    {
        let c = v[i];
        let class = i < alphanumeric.len() && alphanumeric[i];
        proof {
            let shorter = v@.take(i as int);
            let longer = v@.take(i + 1);
            assert(longer.drop_last() =~= shorter);
            assert(longer[i as int] == c);
            assert(class == class_at(alphanumeric@, i as int));
            if all_name_characters(longer, alphanumeric@) {
                assert forall|j: int| 0 <= j < shorter.len() implies is_name_character(
                    #[trigger] shorter[j],
                    class_at(alphanumeric@, j),
                ) by {
                    assert(longer[j] == shorter[j]);
                }
            }
            if all_name_characters(shorter, alphanumeric@) && is_name_character(c, class) {
                assert forall|j: int| 0 <= j < longer.len() implies is_name_character(
                    #[trigger] longer[j],
                    class_at(alphanumeric@, j),
                ) by {
                    if j < i {
                        assert(longer[j] == shorter[j]);
                    }
                }
            }
        }
        if c == '/' {
            slashes += 1;
        }
        if !name_character(c, class) {
            allowed = false;
        }
        i += 1;
    }
    assert(v@.take(n as int) =~= v@);
    if slashes > 1 {
        return Err(SubstitutionError::TooManySlashes(String::from_str(expr)));
    }
    if !allowed {
        return Err(SubstitutionError::InvalidCharacters(String::from_str(expr)));
    }
    Ok(())
}

/// Accepts the name of a variable or says why it is refused, see [`validated`].
pub fn validate_variable_expr(expr: &str) -> (r: Result<(), SubstitutionError>)
    ensures
        match validated(expr@) {
            Ok(_) => r is Ok,
            Err(e) => r matches Err(x) && x@ == e,
        },
{
    let v = chars_of(expr);
    let mut classes: Vec<bool> = Vec::with_capacity(v.len());
    let mut i: usize = 0;
    while i < v.len()
        invariant
            i <= v.len(),
            v@ == expr@,
            classes@ == classified(expr@).take(i as int),
        decreases v.len() - i,
    {
        classes.push(v[i].is_alphanumeric());
        assert(classified(expr@).take(i + 1) =~= classified(expr@).take(i as int).push(
            is_alphanumeric(v@[i as int]),
        ));
        i += 1;
    }
    assert(classified(expr@).take(v.len() as int) =~= classified(expr@));
    validate_classified(expr, classes.as_slice())
}

/// The string literals for the pieces of `name` between dots.
fn path_pieces(name: &Vec<char>) -> (r: Vec<Expr>)
    ensures
        views(r@) == path_literals(split(name@, '.')),
{
    let n = name.len();
    let mut pieces: Vec<Expr> = Vec::new();
    let mut pos: usize = 0;
    let mut done = false;
    while !done
        invariant
            pos <= n,
            n == name.len(),
            !done ==> path_literals(split(name@, '.')) == views(pieces@) + path_literals(
                split_from(name@, '.', pos as int),
            ),
            done ==> path_literals(split(name@, '.')) == views(pieces@),
        decreases n - pos + if done { 0int } else { 1int },
    {
        let ghost before = views(pieces@);
        let ghost rest = split_from(name@, '.', pos as int);
        match find_char(name, '.', pos) {
            Some(dot) => {
                pieces.push(Expr::Str(Str::Plain(string_of(name, pos, dot))));
                proof {
                    let tail = split_from(name@, '.', dot + 1);
                    assert(rest == seq![name@.subrange(pos as int, dot as int)] + tail);
                    assert(views(pieces@) =~= before.push(
                        ExprView::plain(name@.subrange(pos as int, dot as int)),
                    ));
                    assert(before + path_literals(rest) =~= views(pieces@) + path_literals(tail));
                }
                pos = dot + 1;
            },
            None => {
                pieces.push(Expr::Str(Str::Plain(string_of(name, pos, n))));
                proof {
                    assert(rest == seq![name@.subrange(pos as int, n as int)]);
                    assert(views(pieces@) =~= before.push(
                        ExprView::plain(name@.subrange(pos as int, n as int)),
                    ));
                    assert(before + path_literals(rest) =~= views(pieces@));
                }
                done = true;
            },
        }
    }
    pieces
}

/// The expression that reads a variable, see [`variable_expr`].
fn variable_expression(name: &str, default: Option<&str>) -> (r: Expr)
    ensures
        r@ == variable_expr(
            name@,
            match default {
                Some(d) => Some(d@),
                None => None,
            },
        ),
{
    let v = chars_of(name);
    let mut dotted: Vec<char> = Vec::new();
    let mut i: usize = 0;
    while i < v.len()
        invariant
            i <= v.len(),
            v@ == name@,
            dotted@ == normalized(name@).take(i as int),
        decreases v.len() - i,
    {
        let c = v[i];
        dotted.push(
            if c == ':' || c == '/' {
                '.'
            } else {
                c
            },
        );
        assert(normalized(name@).take(i + 1) =~= normalized(name@).take(i as int).push(
            normalized(name@)[i as int],
        ));
        i += 1;
    }
    assert(normalized(name@).take(v.len() as int) =~= normalized(name@));
    match default {
        Some(d) => {
            let args = vec![
                Expr::var("input"),
                Expr::list(path_pieces(&dotted)),
                Expr::Str(Str::Plain(String::from_str(d))),
            ];
            assert(views(args@) =~= seq![
                ExprView::Var("input"@),
                ExprView::List(path_literals(split(normalized(name@), '.'))),
                ExprView::plain(d@),
            ]);
            Expr::call("object.get", args)
        },
        None => {
            let path = String::from_str("input.").concat(string_of(&dotted, 0, dotted.len()).as_str());
            assert(dotted@.subrange(0, dotted@.len() as int) =~= dotted@);
            Expr::var(path.as_str())
        },
    }
}

/// Reads `template` as a string literal of the target language: `${...}`
/// segments become placeholders with the expressions that fill them, escapes
/// become their literal, and all other text is kept. See [`interpolate`].
pub fn substitute_variables(template: &str) -> (r: Result<Str, Error>)
    ensures
        match interpolate(template@) {
            Ok(s) => r matches Ok(x) && x@ == s,
            Err(e) => r matches Err(x) && x@ == ErrorView::InvalidStringInterpolation(e),
        },
{
    let chars = chars_of(template);
    let n = chars.len();
    let mut result = String::new();
    let mut vars: Vec<Expr> = Vec::new();
    let mut pos: usize = 0;
    let mut done = false;
    while !done
        invariant
            pos <= n,
            n == chars.len(),
            chars@ == template@,
            !done ==> scan(template@, 0) == prepend(
                result@,
                views(vars@),
                scan(template@, pos as int),
            ),
            done ==> scan(template@, 0) == Ok::<Pieces, SubstitutionErrorView>(
                (result@, views(vars@)),
            ),
        decreases n - pos + if done { 0int } else { 1int },
    {
        let ghost format_before = result@;
        let ghost vars_before = views(vars@);
        let mut close: Option<(usize, usize)> = None;
        match find_pair(&chars, '$', '{', pos) {
            Some(start) => {
                match find_char(&chars, '}', start + 2) {
                    Some(end) => {
                        close = Some((start, end));
                    },
                    None => {},
                }
            },
            None => {},
        }
        match close {
            None => {
                result.append(template.substring_char(pos, n));
                proof {
                    assert(scan(template@, pos as int) == Ok::<Pieces, SubstitutionErrorView>(
                        (template@.subrange(pos as int, n as int), Seq::empty()),
                    ));
                    assert(vars_before + Seq::<ExprView>::empty() =~= vars_before);
                }
                done = true;
            },
            Some((start, end)) => {
                let body = template.substring_char(start + 2, end);
                let prefix = template.substring_char(pos, start);
                let ghost tail = scan(template@, end + 1);
                proof {
                    assert(scan(template@, pos as int) == match segment(body@) {
                        Err(e) => Err(e),
                        Ok((format, vars)) => prepend(prefix@ + format, vars, tail),
                    });
                }
                result.append(prefix);
                match handle_special_variable(body) {
                    Some(literal) => {
                        result.append(literal);
                        proof {
                            let seg = segment(body@)->Ok_0;
                            assert(seg.1 =~= Seq::empty());
                            assert(vars_before + seg.1 =~= vars_before);
                            lemma_prepend_twice(format_before, vars_before, prefix@ + seg.0, seg.1, tail);
                            assert(format_before + (prefix@ + seg.0) =~= result@);
                        }
                    },
                    None => {
                        let (name, default) = parse_variable_with_default(body);
                        match validate_variable_expr(name) {
                            Err(e) => {
                                return Err(Error::InvalidStringInterpolation(e));
                            },
                            Ok(_) => {},
                        }
                        let var = variable_expression(name, default);
                        result.append("%s");
                        vars.push(var);
                        proof {
                            let seg = segment(body@)->Ok_0;
                            assert(seg.1 =~= seq![var@]);
                            assert(views(vars@) =~= vars_before + seg.1);
                            lemma_prepend_twice(format_before, vars_before, prefix@ + seg.0, seg.1, tail);
                            assert(format_before + (prefix@ + seg.0) =~= result@);
                        }
                    },
                }
                pos = end + 1;
            },
        }
    }
    if vars.len() > 0 {
        Ok(Str::Template(result, vars))
    } else {
        Ok(Str::Plain(result))
    }
}

/// Putting two runs of pieces in front of a rest, one after the other, is
/// putting their concatenation in front of it.
pub proof fn lemma_prepend_twice(
    f1: Seq<char>,
    v1: Seq<ExprView>,
    f2: Seq<char>,
    v2: Seq<ExprView>,
    rest: Result<Pieces, SubstitutionErrorView>,
)
    ensures
        prepend(f1, v1, prepend(f2, v2, rest)) == prepend(f1 + f2, v1 + v2, rest),
{
    match rest {
        Ok((f, v)) => {
            assert(f1 + (f2 + f) =~= (f1 + f2) + f);
            assert(v1 + (v2 + v) =~= (v1 + v2) + v);
        },
        Err(_) => {},
    }
}

/// The expression that reads a variable holds no rule.
pub proof fn lemma_variable_rule_free(name: Seq<char>, default: Option<Seq<char>>)
    ensures
        variable_expr(name, default).rule_free(),
{
    reveal_with_fuel(ExprView::rule_free, 4);
    match default {
        Some(d) => {
            let pieces = path_literals(split(normalized(name), '.'));
            assert forall|i: int| 0 <= i < pieces.len() implies (#[trigger] pieces[i]).rule_free() by {}
            assert(ExprView::List(pieces).rule_free());
        },
        None => {},
    }
}

/// The arguments that a template gets hold no rule.
pub proof fn lemma_scan_rule_free(template: Seq<char>, pos: int)
    ensures
        scan(template, pos) matches Ok(pieces) ==> all_rule_free(pieces.1),
    decreases template.len() - pos,
{
    if pos >= 0 {
        lemma_first_pair_found(template, '$', '{', pos);
        match first_pair(template, '$', '{', pos) {
            Some(start) => {
                lemma_first_index_found(template, '}', start + 2);
                match first_index(template, '}', start + 2) {
                    Some(end) => {
                        let body = template.subrange(start + 2, end);
                        lemma_scan_rule_free(template, end + 1);
                        let (name, default) = variable_with_default(body);
                        lemma_variable_rule_free(name, default);
                    },
                    None => {},
                }
            },
            None => {},
        }
    }
}

/// A string literal that comes out of interpolation holds no rule.
pub proof fn lemma_interpolate_rule_free(template: Seq<char>)
    ensures
        interpolate(template) matches Ok(literal) ==> ExprView::Str(literal).rule_free(),
{
    lemma_scan_rule_free(template, 0);
}

/// Normalizing goes through a concatenation.
pub proof fn lemma_normalized_concat(a: Seq<char>, b: Seq<char>)
    ensures
        normalized(a + b) == normalized(a) + normalized(b),
{
    assert(normalized(a + b) =~= normalized(a) + normalized(b));
}

/// A name without `:` and `/` is its own normal form.
pub proof fn lemma_normalized_plain(name: Seq<char>)
    requires
        !name.contains(':'),
        !name.contains('/'),
    ensures
        normalized(name) == name,
{
    assert(normalized(name) =~= name);
}

/// The variable `q:name` is read from `input.q.name`.
pub proof fn lemma_variable_path(qualifier: Seq<char>, name: Seq<char>)
    requires
        !qualifier.contains(':'),
        !qualifier.contains('/'),
        !name.contains(':'),
        !name.contains('/'),
    ensures
        variable_path(qualifier + ":"@ + name) == "input."@ + qualifier + "."@ + name,
{
    reveal_strlit(":");
    reveal_strlit(".");
    lemma_normalized_plain(qualifier);
    lemma_normalized_plain(name);
    lemma_normalized_concat(qualifier + ":"@, name);
    lemma_normalized_concat(qualifier, ":"@);
    assert(normalized(":"@) =~= "."@);
    assert("input."@ + (qualifier + "."@ + name) =~= "input."@ + qualifier + "."@ + name);
}

/// The variable `q:a/b` is read from `input.q.a.b`.
pub proof fn lemma_variable_nested_path(qualifier: Seq<char>, a: Seq<char>, b: Seq<char>)
    requires
        !qualifier.contains(':'),
        !qualifier.contains('/'),
        !a.contains(':'),
        !a.contains('/'),
        !b.contains(':'),
        !b.contains('/'),
    ensures
        variable_path(qualifier + ":"@ + a + "/"@ + b) == "input."@ + qualifier + "."@ + a + "."@
            + b,
{
    reveal_strlit(":");
    reveal_strlit("/");
    reveal_strlit(".");
    lemma_normalized_plain(qualifier);
    lemma_normalized_plain(a);
    lemma_normalized_plain(b);
    lemma_normalized_concat(qualifier + ":"@ + a + "/"@, b);
    lemma_normalized_concat(qualifier + ":"@ + a, "/"@);
    lemma_normalized_concat(qualifier + ":"@, a);
    lemma_normalized_concat(qualifier, ":"@);
    assert(normalized(":"@) =~= "."@);
    assert(normalized("/"@) =~= "."@);
    assert("input."@ + (qualifier + "."@ + a + "."@ + b) =~= "input."@ + qualifier + "."@ + a
        + "."@ + b);
}

/// A name with more than one slash is never accepted.
pub proof fn lemma_second_slash_refused(name: Seq<char>)
    requires
        count_char(name, '/') > 1,
    ensures
        validated(name) is Err,
{
}

/// A template without a closing brace holds no segment and is a plain
/// string. The default of a variable is such a text, which is why it is
/// taken as it stands.
pub proof fn lemma_unclosed_is_plain(template: Seq<char>)
    requires
        !template.contains('}'),
    ensures
        interpolate(template) == Ok::<StrView, SubstitutionErrorView>(StrView::Plain(template)),
{
    lemma_first_pair_found(template, '$', '{', 0);
    match first_pair(template, '$', '{', 0) {
        Some(start) => {
            lemma_first_index_found(template, '}', start + 2);
        },
        None => {},
    }
    assert(template.subrange(0, template.len() as int) =~= template);
}

/// An escape adds its character to the format and nothing to the arguments:
/// where the next segment of a template is `${*}`, `${?}` or `${$}`, with
/// or without whitespace around the character, the template reads as the
/// text before the segment, the character, and what the rest reads as.
pub proof fn lemma_escape_is_literal(template: Seq<char>, pos: int, start: int, end: int)
    requires
        first_pair(template, '$', '{', pos) == Some(start),
        first_index(template, '}', start + 2) == Some(end),
        special_variable(template.subrange(start + 2, end)) is Some,
    ensures
        ({
            let literal = special_variable(template.subrange(start + 2, end))->0;
            &&& literal == trim(template.subrange(start + 2, end))
            &&& (literal == seq!['*'] || literal == seq!['?'] || literal == seq!['$'])
            &&& scan(template, pos) == prepend(
                template.subrange(pos, start) + literal,
                Seq::empty(),
                scan(template, end + 1),
            )
        }),
{
    reveal_strlit("*");
    reveal_strlit("?");
    reveal_strlit("$");
    let t = trim(template.subrange(start + 2, end));
    if t == seq!['*'] {
        assert("*"@ =~= seq!['*']);
    } else if t == seq!['?'] {
        assert("?"@ =~= seq!['?']);
    } else {
        assert("$"@ =~= seq!['$']);
    }
}

/// Searching for a pair behind a prefix is searching in what follows it.
pub proof fn lemma_first_pair_shift(a: Seq<char>, b: Seq<char>, x: char, y: char, k: int)
    requires
        0 <= k,
    ensures
        first_pair(a + b, x, y, a.len() + k) == match first_pair(b, x, y, k) {
            Some(i) => Some(i + a.len()),
            None => None,
        },
    decreases b.len() - k,
{
    let t = a + b;
    if k + 1 < b.len() {
        assert(t[a.len() + k] == b[k]);
        assert(t[a.len() + k + 1] == b[k + 1]);
        if !(b[k] == x && b[k + 1] == y) {
            lemma_first_pair_shift(a, b, x, y, k + 1);
        }
    }
}

/// Searching for a character behind a prefix is searching in what follows it.
pub proof fn lemma_first_index_shift(a: Seq<char>, b: Seq<char>, c: char, k: int)
    requires
        0 <= k,
    ensures
        first_index(a + b, c, a.len() + k) == match first_index(b, c, k) {
            Some(i) => Some(i + a.len()),
            None => None,
        },
    decreases b.len() - k,
{
    let t = a + b;
    if k < b.len() {
        assert(t[a.len() + k] == b[k]);
        if b[k] != c {
            lemma_first_index_shift(a, b, c, k + 1);
        }
    }
}

/// What a template reads as behind a prefix is what the rest reads as.
pub proof fn lemma_scan_shift(a: Seq<char>, b: Seq<char>, k: int)
    requires
        0 <= k <= b.len(),
    ensures
        scan(a + b, a.len() + k) == scan(b, k),
    decreases b.len() - k,
{
    let t = a + b;
    lemma_first_pair_shift(a, b, '$', '{', k);
    lemma_first_pair_found(b, '$', '{', k);
    assert(t.subrange(a.len() + k, t.len() as int) =~= b.subrange(k, b.len() as int));
    match first_pair(b, '$', '{', k) {
        Some(start) => {
            lemma_first_index_shift(a, b, '}', start + 2);
            lemma_first_index_found(b, '}', start + 2);
            match first_index(b, '}', start + 2) {
                Some(end) => {
                    assert(t.subrange(a.len() + start + 2, a.len() + end) =~= b.subrange(
                        start + 2,
                        end,
                    ));
                    assert(t.subrange(a.len() + k, a.len() + start) =~= b.subrange(k, start));
                    lemma_scan_shift(a, b, end + 1);
                },
                None => {},
            }
        },
        None => {},
    }
}

/// A segment in the middle of a text: where nothing before it opens a
/// segment, the text reads as what stands before the segment, what the
/// segment adds, and what the text behind the segment reads as; or it is
/// refused as the segment is.
pub proof fn lemma_segment_in_text(prefix: Seq<char>, body: Seq<char>, suffix: Seq<char>)
    requires
        first_pair(prefix, '$', '{', 0) is None,
        !body.contains('}'),
    ensures
        scan(prefix + "${"@ + body + "}"@ + suffix, 0) == match segment(body) {
            Err(e) => Err(e),
            Ok((format, vars)) => prepend(prefix + format, vars, scan(suffix, 0)),
        },
{
    reveal_strlit("${");
    reveal_strlit("}");
    let head = prefix + "${"@ + body + "}"@;
    let t = head + suffix;
    let start = prefix.len() as int;
    let end = start + 2 + body.len();
    assert(t[start] == '$' && t[start + 1] == '{');
    assert(t[end] == '}');
    lemma_first_pair_found(prefix, '$', '{', 0);
    lemma_first_pair_found(t, '$', '{', 0);
    assert forall|j: int| 0 <= j < start implies !pair_at(t, '$', '{', j) by {
        if j + 1 < start {
            assert(t[j] == prefix[j] && t[j + 1] == prefix[j + 1]);
            assert(!pair_at(prefix, '$', '{', j));
        }
    }
    assert(pair_at(t, '$', '{', start));
    assert(first_pair(t, '$', '{', 0) == Some(start));
    lemma_first_index_found(t, '}', start + 2);
    assert forall|j: int| start + 2 <= j < end implies t[j] != '}' by {
        assert(t[j] == body[j - start - 2]);
        assert(body.contains(body[j - start - 2]));
    }
    assert(first_index(t, '}', start + 2) == Some(end));
    assert(t.subrange(start + 2, end) =~= body);
    assert(t.subrange(0, start) =~= prefix);
    lemma_scan_shift(head, suffix, 0);
}

/// An escape in the middle of a text adds its character and no argument.
pub proof fn lemma_escape_in_text(prefix: Seq<char>, body: Seq<char>, suffix: Seq<char>)
    requires
        first_pair(prefix, '$', '{', 0) is None,
        !body.contains('}'),
        special_variable(body) is Some,
    ensures
        scan(prefix + "${"@ + body + "}"@ + suffix, 0) == prepend(
            prefix + special_variable(body)->0,
            Seq::empty(),
            scan(suffix, 0),
        ),
{
    lemma_segment_in_text(prefix, body, suffix);
}

/// A variable in the middle of a text adds a placeholder and the variable
/// under `input` as its argument.
pub proof fn lemma_variable_in_text(prefix: Seq<char>, name: Seq<char>, suffix: Seq<char>)
    requires
        first_pair(prefix, '$', '{', 0) is None,
        validated(name) is Ok,
        !name.contains(','),
        special_variable(name) is None,
    ensures
        scan(prefix + "${"@ + name + "}"@ + suffix, 0) == prepend(
            prefix + "%s"@,
            seq![ExprView::Var("input."@ + normalized(name))],
            scan(suffix, 0),
        ),
{
    lemma_first_index_found(name, ',', 0);
    lemma_segment_in_text(prefix, name, suffix);
}

/// An escape between two texts without segments is a plain string: the
/// texts with the escaped character between them.
pub proof fn lemma_escape_between_texts(prefix: Seq<char>, body: Seq<char>, suffix: Seq<char>)
    requires
        first_pair(prefix, '$', '{', 0) is None,
        first_pair(suffix, '$', '{', 0) is None,
        !body.contains('}'),
        special_variable(body) is Some,
    ensures
        interpolate(prefix + "${"@ + body + "}"@ + suffix) == Ok::<StrView, SubstitutionErrorView>(
            StrView::Plain(prefix + special_variable(body)->0 + suffix),
        ),
{
    lemma_escape_in_text(prefix, body, suffix);
    assert(suffix.subrange(0, suffix.len() as int) =~= suffix);
}

/// Whether every `${...}` segment of `template` from `pos` on is an escape.
pub open spec fn escapes_only(template: Seq<char>, pos: int) -> bool
    decreases template.len() - pos,
    via escapes_only_decreases
{
    match first_pair(template, '$', '{', pos) {
        None => true,
        Some(start) => match first_index(template, '}', start + 2) {
            None => true,
            Some(end) => special_variable(template.subrange(start + 2, end)) is Some
                && escapes_only(template, end + 1),
        },
    }
}

#[via_fn]
proof fn escapes_only_decreases(template: Seq<char>, pos: int) {
    if pos >= 0 {
        lemma_first_pair_found(template, '$', '{', pos);
        match first_pair(template, '$', '{', pos) {
            Some(start) => {
                lemma_first_index_found(template, '}', start + 2);
            },
            None => {},
        }
    }
}

/// A run of escapes and plain text gets no arguments.
pub proof fn lemma_escapes_scan(template: Seq<char>, pos: int)
    requires
        escapes_only(template, pos),
    ensures
        scan(template, pos) matches Ok(pieces) && pieces.1.len() == 0,
    decreases template.len() - pos,
{
    if pos >= 0 {
        lemma_first_pair_found(template, '$', '{', pos);
        match first_pair(template, '$', '{', pos) {
            Some(start) => {
                lemma_first_index_found(template, '}', start + 2);
                match first_index(template, '}', start + 2) {
                    Some(end) => {
                        lemma_escapes_scan(template, end + 1);
                    },
                    None => {},
                }
            },
            None => {},
        }
    }
}

/// A template whose segments are all escapes is a plain string: no
/// variable is read.
pub proof fn lemma_escapes_are_plain(template: Seq<char>)
    requires
        escapes_only(template, 0),
    ensures
        interpolate(template) matches Ok(StrView::Plain(_)),
{
    lemma_escapes_scan(template, 0);
}

/// How often `%s` stands in `format`.
pub open spec fn placeholders(format: Seq<char>) -> nat
    decreases format.len(),
{
    if format.len() < 2 {
        0
    } else {
        placeholders(format.drop_last()) + if format[format.len() - 2] == '%' && format.last()
            == 's' {
            1nat
        } else {
            0nat
        }
    }
}

/// The placeholders of a concatenation are those of its parts, and one
/// more where `%` ends the first and `s` begins the second.
pub proof fn lemma_placeholders_concat(a: Seq<char>, b: Seq<char>)
    ensures
        placeholders(a + b) == placeholders(a) + placeholders(b) + if a.len() > 0 && b.len() > 0
            && a.last() == '%' && b[0] == 's' {
            1nat
        } else {
            0nat
        },
    decreases b.len(),
{
    if b.len() == 0 {
        assert(a + b =~= a);
    } else {
        assert((a + b).drop_last() =~= a + b.drop_last());
        lemma_placeholders_concat(a, b.drop_last());
        if b.len() == 1 {
            assert(a + b.drop_last() =~= a);
        }
    }
}

/// How often `%s` stands in the text of `template` that lies outside
/// `${...}` segments, from `pos` on.
pub open spec fn verbatim_placeholders(template: Seq<char>, pos: int) -> nat
    decreases template.len() - pos,
    via verbatim_placeholders_decreases
{
    match first_pair(template, '$', '{', pos) {
        None => placeholders(template.subrange(pos, template.len() as int)),
        Some(start) => match first_index(template, '}', start + 2) {
            None => placeholders(template.subrange(pos, template.len() as int)),
            Some(end) => placeholders(template.subrange(pos, start)) + verbatim_placeholders(
                template,
                end + 1,
            ),
        },
    }
}

#[via_fn]
proof fn verbatim_placeholders_decreases(template: Seq<char>, pos: int) {
    if pos >= 0 {
        lemma_first_pair_found(template, '$', '{', pos);
        match first_pair(template, '$', '{', pos) {
            Some(start) => {
                lemma_first_index_found(template, '}', start + 2);
            },
            None => {},
        }
    }
}

/// What a segment adds to the format holds as many placeholders as the
/// segment has arguments, does not begin with `s` and does not end with `%`.
pub proof fn lemma_segment_placeholders(body: Seq<char>)
    ensures
        segment(body) matches Ok(pieces) ==> placeholders(pieces.0) == pieces.1.len()
            && pieces.0.len() > 0 && pieces.0[0] != 's' && pieces.0.last() != '%',
{
    reveal_strlit("*");
    reveal_strlit("?");
    reveal_strlit("$");
    reveal_strlit("%s");
    reveal_with_fuel(placeholders, 3);
}

/// The placeholders of a format are the arguments and the `%s` that the
/// template holds as plain text.
pub proof fn lemma_scan_placeholders(template: Seq<char>, pos: int)
    ensures
        scan(template, pos) matches Ok(pieces) ==> placeholders(pieces.0) == pieces.1.len()
            + verbatim_placeholders(template, pos),
    decreases template.len() - pos,
{
    if pos >= 0 {
        lemma_first_pair_found(template, '$', '{', pos);
    }
    match first_pair(template, '$', '{', pos) {
        Some(start) => {
            lemma_first_index_found(template, '}', start + 2);
            match first_index(template, '}', start + 2) {
                Some(end) => {
                    let body = template.subrange(start + 2, end);
                    let prefix = template.subrange(pos, start);
                    match segment(body) {
                        Ok((format, vars)) => {
                            lemma_scan_placeholders(template, end + 1);
                            match scan(template, end + 1) {
                                Ok((rest_format, rest_vars)) => {
                                    lemma_segment_placeholders(body);
                                    lemma_placeholders_concat(prefix, format);
                                    lemma_placeholders_concat(prefix + format, rest_format);
                                },
                                Err(_) => {},
                            }
                        },
                        Err(_) => {},
                    }
                },
                None => {},
            }
        },
        None => {},
    }
}

/// In a format that interpolation makes, `%s` stands once for each argument
/// and once for each `%s` that the template holds as plain text. So a
/// template without `%s` outside its segments gets a format with exactly
/// one `%s` for each argument.
pub proof fn lemma_placeholders_match_arguments(template: Seq<char>)
    ensures
        interpolate(template) matches Ok(StrView::Template(format, vars)) ==> placeholders(format)
            == vars.len() + verbatim_placeholders(template, 0),
        verbatim_placeholders(template, 0) == 0 ==> (interpolate(template) matches Ok(
            StrView::Template(format, vars),
        ) ==> placeholders(format) == vars.len()),
{
    lemma_scan_placeholders(template, 0);
}

} // verus!
