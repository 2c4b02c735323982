//! The calculator: which input it evaluates, and the item it shows for a
//! result.
use vstd::prelude::*;
use vstd::string::*;
use vstd::utf8::*;
use crate::capability::{trim_chars, trimmed, Action, Capability, CapabilityMeta, IconRef, Item};
use crate::text::{is_digit, string_of};

verus! {

/// Expressions longer than this many bytes are not evaluated.
pub const MAX_EXPRESSION_BYTES: usize = 1024;

/// A leading `=` asks for evaluation of whatever follows.
pub const TRIGGER_PREFIX: char = '=';

pub const ICON_NAME: &'static str = "accessories-calculator";

pub const COPY_RESULT_ACTION_LABEL: &'static str = "Copy Result";

pub const COPY_EQUATION_ACTION_LABEL: &'static str = "Copy Equation";

/// The number of bytes of `c` in UTF-8.
pub open spec fn utf8_width(c: char) -> nat {
    if (c as u32) < 0x80 {
        1
    } else if (c as u32) < 0x800 {
        2
    } else if (c as u32) < 0x10000 {
        3
    } else {
        4
    }
}

/// The number of bytes of `s` in UTF-8.
pub open spec fn utf8_len(s: Seq<char>) -> nat
    decreases s.len(),
{
    if s.len() == 0 {
        0
    } else {
        utf8_width(s[0]) + utf8_len(s.drop_first())
    }
}

/// `utf8_len` is the length of vstd's UTF-8 encoding.
pub proof fn utf8_len_is_encoding_length(s: Seq<char>)
    ensures
        utf8_len(s) == encode_utf8(s).len(),
    decreases s.len(),
{
    if s.len() > 0 {
        let c = s[0];
        assert(is_scalar(c as u32)) by {
            char_is_scalar(c);
        }
        assert(encode_scalar(c as u32).len() == utf8_width(c));
        utf8_len_is_encoding_length(s.drop_first());
    }
}

proof fn lemma_utf8_len_suffix(s: Seq<char>, j: int, i: int)
    requires
        0 <= j <= i <= s.len(),
    ensures
        utf8_len(s.subrange(j, s.len() as int)) >= utf8_len(s.subrange(i, s.len() as int)),
    decreases i - j,
{
    if j < i {
        assert(s.subrange(j, s.len() as int).drop_first() =~= s.subrange(j + 1, s.len() as int));
        lemma_utf8_len_suffix(s, j + 1, i);
    }
}

/// Whether `v` takes more than `limit` bytes in UTF-8.
pub fn utf8_len_exceeds(v: &[char], limit: usize) -> (r: bool)
    requires
        limit <= usize::MAX - 4,
    ensures
        r == (utf8_len(v@) > limit),
{
    let n = v.len();
    let mut i: usize = n;
    let mut total: usize = 0;
    assert(v@.subrange(n as int, n as int) =~= Seq::<char>::empty());
    while i > 0
        invariant
            n == v@.len(),
            i <= n,
            limit <= usize::MAX - 4,
            total == utf8_len(v@.subrange(i as int, n as int)),
            total <= limit,
        decreases i,
    {
        let c = v[i - 1];
        let w: usize = if (c as u32) < 0x80 {
            1
        } else if (c as u32) < 0x800 {
            2
        } else if (c as u32) < 0x10000 {
            3
        } else {
            4
        };
        assert(v@.subrange(i - 1, n as int).drop_first() =~= v@.subrange(i as int, n as int));
        total = total + w;
        i = i - 1;
        if total > limit {
            proof {
                lemma_utf8_len_suffix(v@, 0, i as int);
                assert(v@.subrange(0, n as int) =~= v@);
            }
            return true;
        }
    }
    assert(v@.subrange(0, n as int) =~= v@);
    false
}

/// The part of a query that names the expression, and whether it came
/// after the `=` trigger.
pub open spec fn expression_of(input: Seq<char>) -> (Seq<char>, bool) {
    let t = trimmed(input);
    if t.len() > 0 && t[0] == TRIGGER_PREFIX {
        (trimmed(t.drop_first()), true)
    } else {
        (t, false)
    }
}

pub open spec fn has_digit(s: Seq<char>) -> bool {
    exists|i: int| 0 <= i < s.len() && is_digit(#[trigger] s[i])
}

/// The expression that the calculator goes on to evaluate, if any: not
/// empty, within the byte limit, and, without the trigger, holding a digit.
pub open spec fn candidate(input: Seq<char>) -> Option<(Seq<char>, bool)> {
    let (e, triggered) = expression_of(input);
    if e.len() == 0 || utf8_len(e) > MAX_EXPRESSION_BYTES {
        None
    } else if !triggered && !has_digit(e) {
        None
    } else {
        Some((e, triggered))
    }
}

/// The expression of `input` worth evaluating, and whether the `=`
/// trigger asked for it. Without the trigger, an expression that is a bare
/// number is still to be skipped by whoever evaluates it.
pub fn calculation_input(input: &str) -> (r: Option<(String, bool)>)
    ensures
        match r {
            Some((e, triggered)) => candidate(input@) == Some((e@, triggered)),
            None => candidate(input@) is None,
        },
{
    let t = trim_chars(crate::text::chars_of(input).as_slice());
    let (e, triggered) = if t.len() > 0 && t[0] == TRIGGER_PREFIX {
        let rest = vstd::slice::slice_subrange(t.as_slice(), 1, t.len());
        assert(rest@ =~= t@.drop_first());
        (trim_chars(rest), true)
    } else {
        (t, false)
    };
    if e.len() == 0 || utf8_len_exceeds(e.as_slice(), MAX_EXPRESSION_BYTES) {
        return None;
    }
    if !triggered {
        let n = e.len();
        let mut i: usize = 0;
        let mut digit = false;
        while i < n && !digit
            invariant
                n == e@.len(),
                i <= n,
                digit ==> has_digit(e@),
                !digit ==> forall|j: int| 0 <= j < i ==> !is_digit(#[trigger] e@[j]),
            decreases n - i,
        {
            if '0' <= e[i] && e[i] <= '9' {
                digit = true;
            }
            i = i + 1;
        }
        if !digit {
            return None;
        }
    }
    Some((string_of(e.as_slice()), triggered))
}

/// Without the `=` trigger, a non-empty expression within the byte limit is
/// evaluated exactly when it holds an ASCII digit somewhere, wherever that
/// digit stands: `(1+2)*3` is, `pi` is not.
pub proof fn digit_anywhere_makes_a_candidate(input: Seq<char>)
    requires
        trimmed(input).len() > 0,
        trimmed(input)[0] != '=',
        utf8_len(trimmed(input)) <= MAX_EXPRESSION_BYTES,
    ensures
        candidate(input) == if exists|i: int| 0 <= i < trimmed(input).len() && '0' <= #[trigger] trimmed(input)[i] <= '9' {
            Some((trimmed(input), false))
        } else {
            None::<(Seq<char>, bool)>
        },
{
}

/// With the `=` trigger, whatever follows it (trimmed) is evaluated, digits
/// or not, when it is non-empty and within the byte limit.
pub proof fn trigger_admits_any_expression(input: Seq<char>)
    requires
        trimmed(input).len() > 0,
        trimmed(input)[0] == '=',
        trimmed(trimmed(input).drop_first()).len() > 0,
        utf8_len(trimmed(trimmed(input).drop_first())) <= MAX_EXPRESSION_BYTES,
    ensures
        candidate(input) == Some((trimmed(trimmed(input).drop_first()), true)),
{
}

/// Blank input is never evaluated.
pub proof fn blank_input_is_no_candidate(input: Seq<char>)
    requires
        trimmed(input).len() == 0,
    ensures
        candidate(input) is None,
{
}

/// An expression over the byte limit is never evaluated, trigger or not.
pub proof fn long_expressions_are_refused(input: Seq<char>)
    ensures
        (trimmed(input).len() == 0 || trimmed(input)[0] != '=') && utf8_len(trimmed(input)) > MAX_EXPRESSION_BYTES
            ==> candidate(input) is None,
        trimmed(input).len() > 0 && trimmed(input)[0] == '=' && utf8_len(trimmed(trimmed(input).drop_first()))
            > MAX_EXPRESSION_BYTES ==> candidate(input) is None,
{
}

/// `"<expression> = <value>"`.
pub open spec fn equation(expression: Seq<char>, value: Seq<char>) -> Seq<char> {
    expression + " = "@ + value
}

/// The item for a result: the equation as title, and actions that copy the
/// value (primary) and the equation.
pub fn build_item(expression: &str, value: String) -> (r: Item)
    ensures
        r.title@ == equation(expression@, value@),
        r.subtitle is None,
        r.icon matches Some(IconRef::Name(n)) && n@ == ICON_NAME@,
        r.actions@.len() == 2,
        r.actions@[0].label@ == COPY_RESULT_ACTION_LABEL@,
        r.actions@[0].params@.len() == 1,
        r.actions@[0].params@[0]@ == value@,
        r.actions@[0].primary,
        r.actions@[1].label@ == COPY_EQUATION_ACTION_LABEL@,
        r.actions@[1].params@.len() == 1,
        r.actions@[1].params@[0]@ == equation(expression@, value@),
        !r.actions@[1].primary,
{
    let mut eq = expression.to_owned();
    eq.append(" = ");
    eq.append(value.as_str());
    let mut actions: Vec<Action> = Vec::new();
    let mut p1: Vec<String> = Vec::new();
    p1.push(value);
    actions.push(Action { label: COPY_RESULT_ACTION_LABEL.to_owned(), params: p1, primary: true });
    let mut p2: Vec<String> = Vec::new();
    p2.push(eq.clone());
    actions.push(Action { label: COPY_EQUATION_ACTION_LABEL.to_owned(), params: p2, primary: false });
    Item { title: eq, subtitle: None, icon: Some(IconRef::Name(ICON_NAME.to_owned())), actions }
}

/// The text that an action on a calculator item asks to copy: its first
/// parameter, for either of the two copy labels.
pub fn copy_request(action: Action) -> (r: Option<String>)
    ensures
        match r {
            Some(t) => action.params@.len() > 0 && t@ == action.params@[0]@
                && (action.label@ == COPY_RESULT_ACTION_LABEL@ || action.label@ == COPY_EQUATION_ACTION_LABEL@),
            None => action.params@.len() == 0
                || !(action.label@ == COPY_RESULT_ACTION_LABEL@ || action.label@ == COPY_EQUATION_ACTION_LABEL@),
        },
{
    if action.params.len() == 0 {
        return None;
    }
    let label = action.label.as_str();
    if crate::text::str_eq(label, COPY_RESULT_ACTION_LABEL) || crate::text::str_eq(label, COPY_EQUATION_ACTION_LABEL) {
        Some(action.params[0].clone())
    } else {
        None
    }
}

/// Evaluates mathematical expressions typed into the launcher.
pub struct Calculator;

impl Capability for Calculator {
    fn id(&self) -> (r: &'static str)
        ensures
            r@ == "calculator"@,
    {
        "calculator"
    }

    fn metadata(&self) -> (r: CapabilityMeta)
        ensures
            r.name@ == "Calculator"@,
            r.version@ == crate::PACKAGE_VERSION@,
            r.description@ == "Evaluate mathematical expressions."@,
            r.icon is None,
            r.homepage is None,
            r.author is None,
    {
        CapabilityMeta {
            name: "Calculator".to_owned(),
            version: crate::PACKAGE_VERSION.to_owned(),
            description: "Evaluate mathematical expressions.".to_owned(),
            icon: None,
            homepage: None,
            author: None,
        }
    }
}

} // verus!
