//! The grammar of the language, and the tree that a source text is read into.
//!
//! The grammar is a parsing expression grammar: a rule is a function from a
//! text and a position to the tree that the rule reads there and the position
//! behind it, and of two alternatives the first that matches is taken. White
//! space may stand in front of every token. The last argument of a rule
//! bounds how deep rules may nest; where the bound is reached, the rule does
//! not match. A text is read under the bound `enough`, which it cannot
//! reach: under every larger bound it is read in the same way.
//!
//! ```text
//! Program          = FuncDef* EOI
//! FuncDef          = "fn" Identifier "(" DefArgList ")" Block
//! DefArgList       = (Identifier ("," Identifier)*)?
//! Block            = "{" Statement* "}"
//! Statement        = (VarDecl | FuncReturn | ForLoop | WhileLoop | IfStatement
//!                     | FuncCall | VarSet) ";"
//! VarDecl          = "let" Identifier ("=" Expression)?
//! VarSet           = Identifier "=" Expression
//! FuncCall         = Identifier "(" ArgList ")"
//! ArgList          = (Expression ("," Expression)*)?
//! FuncReturn       = "return" Expression
//! ForLoop          = "for" "(" ForParams ")" Block
//! ForParams        = Statement Expression ";" Statement
//! WhileLoop        = "while" "(" Expression ")" Block
//! IfStatement      = "if" "(" Expression ")" Block
//! Expression       = UnaryExpression | BinaryExpression | Number | "(" Expression ")"
//!                    | FuncCall | Boolean | Identifier | String
//! BinaryExpression = Term (BinaryOperator Term)+
//! UnaryExpression  = UnaryOperator Term
//! Term             = Number | "(" Expression ")" | FuncCall | Identifier
//! BinaryOperator   = "==" | "!=" | ">=" | "<=" | "+" | "-" | "*" | "/" | ">" | "<"
//! UnaryOperator    = "-" | "!"
//! Boolean          = "True" | "False"
//! Number           = digit+                      (a value that 32 bits hold)
//! Identifier       = (letter | "_") (letter | digit | "_")*
//! String           = '"' (any character but '"')* '"'
//! ```
//!
//! A word in quotes that is made of letters (`fn`, `let`, `True`, ...) matches
//! only where no letter, digit or `_` follows it.

use crate::text::{
    char_is_space, chars_of, digits_value, is_digit, lemma_digits_value_grows, skip_space,
};
use vstd::prelude::*;
use vstd::string::*;

verus! {

/// The rules of the grammar.
#[derive(Debug, Clone, Copy, PartialEq, Eq)]
pub enum Rule {
    Program,
    FuncDef,
    Block,
    Statement,
    VarDecl,
    VarSet,
    FuncCall,
    FuncReturn,
    ForLoop,
    ForParams,
    WhileLoop,
    IfStatement,
    Expression,
    UnaryExpression,
    BinaryExpression,
    UnaryOperator,
    BinaryOperator,
    Term,
    Number,
    Identifier,
    String,
    Boolean,
    ArgList,
    DefArgList,
    EOI,
}

/// The mathematical model of a parse tree.
pub struct Tree {
    pub rule: Rule,
    pub text: Seq<char>,
    pub inner: Seq<Tree>,
}

/// A node of a parse tree: the rule that matched, the text it matched, and
/// the trees of the rules that matched inside it.
#[derive(Debug, PartialEq, Eq)]
pub struct Pair {
    pub rule: Rule,
    pub text: String,
    pub inner: Vec<Pair>,
}

/// The models of a list of nodes, in order.
pub open spec fn pairs_model(v: &Vec<Pair>) -> Seq<Tree>
    decreases v,
{
    Seq::new(
        v@.len(),
        |i: int|
            if 0 <= i < v@.len() {
                v@[i].model()
            } else {
                arbitrary()
            },
    )
}

impl Pair {
    /// The model of this tree.
    pub open spec fn model(&self) -> Tree
        decreases self,
    {
        Tree { rule: self.rule, text: self.text@, inner: pairs_model(&self.inner) }
    }
}

impl View for Pair {
    type V = Tree;

    open spec fn view(&self) -> Tree {
        self.model()
    }
}

/// What a rule returns: the tree it read and the position behind it, or
/// nothing where it does not match.
pub type Parsed = Option<(Tree, int)>;

/// The model of what the executable form of a rule returns.
pub open spec fn parsed_model(r: Option<(Pair, usize)>) -> Parsed {
    match r {
        Some((pair, end)) => Some((pair@, end as int)),
        None => None,
    }
}

/// The tree of a rule that matched `s[from..to]` around `inner`.
pub open spec fn tree(rule: Rule, s: Seq<char>, from: int, to: int, inner: Seq<Tree>) -> Tree {
    Tree { rule, text: s.subrange(from, to), inner }
}

/// A source text, held as a string and as its characters.
pub struct Input {
    text: String,
    chars: Vec<char>,
    // Whether the text is known to hold ASCII only.
    ascii: bool,
}

impl View for Input {
    type V = Seq<char>;

    closed spec fn view(&self) -> Seq<char> {
        self.text@
    }
}

impl Input {
    /// The two forms hold the same text.
    #[verifier::type_invariant]
    closed spec fn same_text(&self) -> bool {
        self.chars@ == self.text@ && (self.ascii ==> self.text.is_ascii())
    }

    /// The input that holds `source`.
    pub fn new(source: &str) -> (r: Input)
        ensures
            r@ == source@,
    {
        let text = String::from_str(source);
        let ascii = text.is_ascii();
        Input { text, chars: chars_of(source), ascii }
    }

    /// The number of characters.
    pub fn len(&self) -> (r: usize)
        ensures
            r == self@.len(),
    {
        proof {
            use_type_invariant(self);
        }
        self.chars.len()
    }

    /// The character at `i`.
    pub fn at(&self, i: usize) -> (r: char)
        requires
            i < self@.len(),
        ensures
            r == self@[i as int],
    {
        proof {
            use_type_invariant(self);
        }
        self.chars[i]
    }

    /// A copy of the characters from `from` up to `to`.
    pub fn slice(&self, from: usize, to: usize) -> (r: String)
        requires
            from <= to <= self@.len(),
        ensures
            r@ == self@.subrange(from as int, to as int),
    {
        proof {
            use_type_invariant(self);
        }
        if self.ascii {
            String::from_str(self.text.as_str().substring_ascii(from, to))
        } else {
            String::from_str(self.text.as_str().substring_char(from, to))
        }
    }

    /// The node of a rule that matched the characters from `from` up to
    /// `to` and holds no other node.
    pub fn leaf(&self, rule: Rule, from: usize, to: usize) -> (r: Pair)
        requires
            from <= to <= self@.len(),
        ensures
            r@ == tree(rule, self@, from as int, to as int, Seq::empty()),
    {
        let inner: Vec<Pair> = Vec::new();
        assert(pairs_model(&inner) =~= Seq::empty());
        Pair { rule, text: self.slice(from, to), inner }
    }

    /// The node of a rule that matched the characters from `from` up to
    /// `to` around `inner`.
    pub fn pair(&self, rule: Rule, from: usize, to: usize, inner: Vec<Pair>) -> (r: Pair)
        requires
            from <= to <= self@.len(),
        ensures
            r@ == tree(rule, self@, from as int, to as int, pairs_model(&inner)),
    {
        Pair { rule, text: self.slice(from, to), inner }
    }
}

/// Whether an identifier may start with `c`.
pub open spec fn is_ident_start(c: char) -> bool {
    ('a' <= c <= 'z') || ('A' <= c <= 'Z') || c == '_'
}

/// Whether an identifier may go on with `c`.
pub open spec fn is_ident_char(c: char) -> bool {
    is_ident_start(c) || is_digit(c)
}

/// The first index at or after `i` that holds no character of an
/// identifier, or the length.
pub open spec fn scan_ident(s: Seq<char>, i: int) -> int
    decreases s.len() - i,
{
    if 0 <= i < s.len() && is_ident_char(s[i]) {
        scan_ident(s, i + 1)
    } else {
        i
    }
}

/// The first index at or after `i` that holds no digit, or the length.
pub open spec fn scan_digits(s: Seq<char>, i: int) -> int
    decreases s.len() - i,
{
    if 0 <= i < s.len() && is_digit(s[i]) {
        scan_digits(s, i + 1)
    } else {
        i
    }
}

/// The first index at or after `i` that holds a double quote, or the length.
pub open spec fn scan_string(s: Seq<char>, i: int) -> int
    decreases s.len() - i,
{
    if 0 <= i < s.len() && s[i] != '"' {
        scan_string(s, i + 1)
    } else {
        i
    }
}

/// Whether `lit` stands in `s` at `pos`.
pub open spec fn starts_with(s: Seq<char>, pos: int, lit: Seq<char>) -> bool {
    0 <= pos && pos + lit.len() <= s.len() && s.subrange(pos, pos + lit.len()) == lit
}

/// The position behind `lit`, where `lit` stands at `pos` behind white space.
pub open spec fn symbol(s: Seq<char>, pos: int, lit: Seq<char>) -> Option<int> {
    let p = skip_space(s, pos);
    if starts_with(s, p, lit) {
        Some(p + lit.len())
    } else {
        None
    }
}

/// The position behind the word `lit`, where it stands at `pos` behind
/// white space and no character of an identifier follows it.
pub open spec fn keyword(s: Seq<char>, pos: int, lit: Seq<char>) -> Option<int> {
    match symbol(s, pos, lit) {
        Some(end) => if end < s.len() && is_ident_char(s[end]) {
            None
        } else {
            Some(end)
        },
        None => None,
    }
}

/// `Identifier`.
pub open spec fn identifier(s: Seq<char>, pos: int) -> Parsed {
    let p = skip_space(s, pos);
    if 0 <= p < s.len() && is_ident_start(s[p]) {
        let end = scan_ident(s, p + 1);
        Some((tree(Rule::Identifier, s, p, end, Seq::empty()), end))
    } else {
        None
    }
}

/// `Number`.
pub open spec fn number(s: Seq<char>, pos: int) -> Parsed {
    let p = skip_space(s, pos);
    if 0 <= p < s.len() && is_digit(s[p]) {
        let end = scan_digits(s, p + 1);
        if digits_value(s.subrange(p, end)) <= i32::MAX {
            Some((tree(Rule::Number, s, p, end, Seq::empty()), end))
        } else {
            None
        }
    } else {
        None
    }
}

/// `String`.
pub open spec fn string(s: Seq<char>, pos: int) -> Parsed {
    let p = skip_space(s, pos);
    if 0 <= p < s.len() && s[p] == '"' {
        let close = scan_string(s, p + 1);
        if close < s.len() {
            Some((tree(Rule::String, s, p, close + 1, Seq::empty()), close + 1))
        } else {
            None
        }
    } else {
        None
    }
}

/// `Boolean`.
pub open spec fn boolean(s: Seq<char>, pos: int) -> Parsed {
    let p = skip_space(s, pos);
    match keyword(s, pos, "True"@) {
        Some(end) => Some((tree(Rule::Boolean, s, p, end, Seq::empty()), end)),
        None => match keyword(s, pos, "False"@) {
            Some(end) => Some((tree(Rule::Boolean, s, p, end, Seq::empty()), end)),
            None => None,
        },
    }
}

/// How many characters the binary operator at `p` has, or 0 where none
/// stands there.
pub open spec fn binary_operator_len(s: Seq<char>, p: int) -> int {
    if starts_with(s, p, "=="@) || starts_with(s, p, "!="@) || starts_with(s, p, ">="@)
        || starts_with(s, p, "<="@) {
        2
    } else if starts_with(s, p, "+"@) || starts_with(s, p, "-"@) || starts_with(s, p, "*"@)
        || starts_with(s, p, "/"@) || starts_with(s, p, ">"@) || starts_with(s, p, "<"@) {
        1
    } else {
        0
    }
}

/// `BinaryOperator`.
pub open spec fn binary_operator(s: Seq<char>, pos: int) -> Parsed {
    let p = skip_space(s, pos);
    let n = binary_operator_len(s, p);
    if n > 0 {
        Some((tree(Rule::BinaryOperator, s, p, p + n, Seq::empty()), p + n))
    } else {
        None
    }
}

/// `UnaryOperator`.
pub open spec fn unary_operator(s: Seq<char>, pos: int) -> Parsed {
    let p = skip_space(s, pos);
    if starts_with(s, p, "-"@) || starts_with(s, p, "!"@) {
        Some((tree(Rule::UnaryOperator, s, p, p + 1, Seq::empty()), p + 1))
    } else {
        None
    }
}

/// Whether a rule that started at `pos` and ended at `end` stayed in `s`
/// and went no further back than the white space at `pos` ends.
pub open spec fn within(s: Seq<char>, pos: int, end: int) -> bool {
    pos <= end && skip_space(s, pos) <= end <= s.len()
}

/// The position behind the white space at `pos`.
pub fn skip_space_at(input: &Input, pos: usize) -> (r: usize)
    requires
        pos <= input@.len(),
    ensures
        r == skip_space(input@, pos as int),
        pos <= r <= input@.len() <= usize::MAX,
{
    let n = input.len();
    let mut p = pos;
    while p < n && char_is_space(input.at(p))
        invariant
                n == input@.len(),
            pos <= p <= n,
            skip_space(input@, pos as int) == skip_space(input@, p as int),
        decreases n - p,
    {
        p += 1;
    }
    p
}

/// Tests whether `lit` stands in the input at `p`.
pub fn starts_with_at(input: &Input, p: usize, lit: &str) -> (r: bool)
    requires
        p <= input@.len(),
    ensures
        r == starts_with(input@, p as int, lit@),
{
    let n = input.len();
    let m = lit.unicode_len();
    if m > n - p {
        return false;
    }
    let mut i: usize = 0;
    while i < m
        invariant
                n == input@.len(),
            m == lit@.len(),
            p + m <= n,
            i <= m,
            input@.subrange(p as int, p + i) == lit@.subrange(0, i as int),
        decreases m - i,
    {
        if input.at(p + i) != lit.get_char(i) {
            assert(input@.subrange(p as int, p + m)[i as int] != lit@[i as int]);
            return false;
        }
        assert(input@.subrange(p as int, p + i + 1) =~= input@.subrange(p as int, p + i).push(
            input@[p + i],
        ));
        assert(lit@.subrange(0, i + 1) =~= lit@.subrange(0, i as int).push(lit@[i as int]));
        i += 1;
    }
    assert(lit@.subrange(0, m as int) =~= lit@);
    true
}

/// The position behind `lit`, where `lit` stands at `pos` behind white space.
pub fn symbol_at(input: &Input, pos: usize, lit: &str) -> (r: Option<usize>)
    requires
        pos <= input@.len(),
    ensures
        match r {
            Some(end) => symbol(input@, pos as int, lit@) == Some(end as int) && within(
                input@,
                pos as int,
                end as int,
            ),
            None => symbol(input@, pos as int, lit@) is None,
        },
{
    let p = skip_space_at(input, pos);
    if starts_with_at(input, p, lit) {
        Some(p + lit.unicode_len())
    } else {
        None
    }
}

/// Tests whether an identifier may start with `c`.
pub fn char_is_ident_start(c: char) -> (r: bool)
    ensures
        r == is_ident_start(c),
{
    ('a' <= c && c <= 'z') || ('A' <= c && c <= 'Z') || c == '_'
}

/// Tests whether an identifier may go on with `c`.
pub fn char_is_ident(c: char) -> (r: bool)
    ensures
        r == is_ident_char(c),
{
    char_is_ident_start(c) || ('0' <= c && c <= '9')
}

/// The position behind the word `lit`, where it stands at `pos` behind
/// white space and no character of an identifier follows it.
pub fn keyword_at(input: &Input, pos: usize, lit: &str) -> (r: Option<usize>)
    requires
        pos <= input@.len(),
    ensures
        match r {
            Some(end) => keyword(input@, pos as int, lit@) == Some(end as int) && within(
                input@,
                pos as int,
                end as int,
            ),
            None => keyword(input@, pos as int, lit@) is None,
        },
{
    match symbol_at(input, pos, lit) {
        Some(end) => {
            if end < input.len() && char_is_ident(input.at(end)) {
                None
            } else {
                Some(end)
            }
        },
        None => None,
    }
}

/// Reads an `Identifier`.
pub fn identifier_at(input: &Input, pos: usize) -> (r: Option<(Pair, usize)>)
    requires
        pos <= input@.len(),
    ensures
        parsed_model(r) == identifier(input@, pos as int),
        r matches Some((_, end)) ==> within(input@, pos as int, end as int),
{
    let n = input.len();
    let p = skip_space_at(input, pos);
    if p < n && char_is_ident_start(input.at(p)) {
        let mut end = p + 1;
        while end < n && char_is_ident(input.at(end))
            invariant
                        n == input@.len(),
                p < end <= n,
                scan_ident(input@, p + 1) == scan_ident(input@, end as int),
            decreases n - end,
        {
            end += 1;
        }
        let pair = input.leaf(Rule::Identifier, p, end);
        Some((pair, end))
    } else {
        None
    }
}

/// Reads a `Number`.
pub fn number_at(input: &Input, pos: usize) -> (r: Option<(Pair, usize)>)
    requires
        pos <= input@.len(),
    ensures
        parsed_model(r) == number(input@, pos as int),
        r matches Some((_, end)) ==> within(input@, pos as int, end as int),
{
    let n = input.len();
    let p = skip_space_at(input, pos);
    if p < n && '0' <= input.at(p) && input.at(p) <= '9' {
        let mut end = p;
        let mut value: u64 = 0;
        let mut fits = true;
        assert(input@.subrange(p as int, p as int) =~= Seq::<char>::empty());
        while end < n && '0' <= input.at(end) && input.at(end) <= '9'
            invariant
                        n == input@.len(),
                p <= end <= n,
                end == p ==> is_digit(input@[p as int]),
                scan_digits(input@, p as int) == scan_digits(input@, end as int),
                crate::text::all_digits(input@.subrange(p as int, end as int)),
                fits ==> value == digits_value(input@.subrange(p as int, end as int)),
                fits ==> value <= i32::MAX,
                !fits ==> digits_value(input@.subrange(p as int, end as int)) > i32::MAX,
            decreases n - end,
        {
            let c = input.at(end);
            let ghost before = input@.subrange(p as int, end as int);
            let ghost after = input@.subrange(p as int, end + 1);
            assert(after.drop_last() =~= before);
            assert(after.last() == c);
            assert(crate::text::all_digits(after)) by {
                assert forall|j: int| 0 <= j < after.len() implies
                    is_digit(#[trigger] after[j]) by {
                    if j < before.len() {
                        assert(after[j] == before[j]);
                    }
                }
            }
            proof {
                lemma_digits_value_grows(after, before.len() as int);
                assert(after.subrange(0, before.len() as int) =~= before);
            }
            if fits {
                let d: u64 = (c as u32 - '0' as u32) as u64;
                value = value * 10 + d;
                if value > 0x7fff_ffff {
                    fits = false;
                }
            }
            end += 1;
        }
        assert(scan_digits(input@, p as int) == scan_digits(input@, p + 1));
        if fits {
            let pair = input.leaf(Rule::Number, p, end);
            Some((pair, end))
        } else {
            None
        }
    } else {
        None
    }
}

/// Reads a `String`.
pub fn string_at(input: &Input, pos: usize) -> (r: Option<(Pair, usize)>)
    requires
        pos <= input@.len(),
    ensures
        parsed_model(r) == string(input@, pos as int),
        r matches Some((_, end)) ==> within(input@, pos as int, end as int),
{
    let n = input.len();
    let p = skip_space_at(input, pos);
    if p < n && input.at(p) == '"' {
        let mut close = p + 1;
        while close < n && input.at(close) != '"'
            invariant
                        n == input@.len(),
                p < close <= n,
                scan_string(input@, p + 1) == scan_string(input@, close as int),
            decreases n - close,
        {
            close += 1;
        }
        if close < n {
            let pair = input.leaf(Rule::String, p, close + 1);
            Some((pair, close + 1))
        } else {
            None
        }
    } else {
        None
    }
}

/// Reads a `Boolean`.
pub fn boolean_at(input: &Input, pos: usize) -> (r: Option<(Pair, usize)>)
    requires
        pos <= input@.len(),
    ensures
        parsed_model(r) == boolean(input@, pos as int),
        r matches Some((_, end)) ==> within(input@, pos as int, end as int),
{
    proof {
        reveal_strlit("True");
        reveal_strlit("False");
    }
    let p = skip_space_at(input, pos);
    let end = match keyword_at(input, pos, "True") {
        Some(end) => end,
        None => match keyword_at(input, pos, "False") {
            Some(end) => end,
            None => {
                return None;
            },
        },
    };
    let pair = input.leaf(Rule::Boolean, p, end);
    Some((pair, end))
}

/// Reads a `BinaryOperator`.
pub fn binary_operator_at(input: &Input, pos: usize) -> (r: Option<(Pair, usize)>)
    requires
        pos <= input@.len(),
    ensures
        parsed_model(r) == binary_operator(input@, pos as int),
        r matches Some((_, end)) ==> within(input@, pos as int, end as int),
{
    proof {
        reveal_strlit("==");
        reveal_strlit("!=");
        reveal_strlit(">=");
        reveal_strlit("<=");
        reveal_strlit("+");
        reveal_strlit("-");
        reveal_strlit("*");
        reveal_strlit("/");
        reveal_strlit(">");
        reveal_strlit("<");
    }
    let p = skip_space_at(input, pos);
    let n: usize = if starts_with_at(input, p, "==") || starts_with_at(input, p, "!=")
        || starts_with_at(input, p, ">=") || starts_with_at(input, p, "<=") {
        2
    } else if starts_with_at(input, p, "+") || starts_with_at(input, p, "-") || starts_with_at(
        input,
        p,
        "*",
    ) || starts_with_at(input, p, "/") || starts_with_at(input, p, ">") || starts_with_at(
        input,
        p,
        "<",
    ) {
        1
    } else {
        0
    };
    if n > 0 {
        let pair = input.leaf(Rule::BinaryOperator, p, p + n);
        Some((pair, p + n))
    } else {
        None
    }
}

/// Reads a `UnaryOperator`.
pub fn unary_operator_at(input: &Input, pos: usize) -> (r: Option<(Pair, usize)>)
    requires
        pos <= input@.len(),
    ensures
        parsed_model(r) == unary_operator(input@, pos as int),
        r matches Some((_, end)) ==> within(input@, pos as int, end as int),
{
    proof {
        reveal_strlit("-");
        reveal_strlit("!");
    }
    let p = skip_space_at(input, pos);
    if starts_with_at(input, p, "-") || starts_with_at(input, p, "!") {
        let pair = input.leaf(Rule::UnaryOperator, p, p + 1);
        Some((pair, p + 1))
    } else {
        None
    }
}

/// The first of two alternatives that matches.
pub open spec fn or_else(first: Parsed, second: Parsed) -> Parsed {
    if first is Some {
        first
    } else {
        second
    }
}

/// The tree of `rule` around the one tree that `child` read, from the first
/// character at or after `pos` that is no white space.
pub open spec fn wrap(rule: Rule, s: Seq<char>, pos: int, child: Parsed) -> Parsed {
    match child {
        Some((t, end)) => Some((tree(rule, s, skip_space(s, pos), end, seq![t]), end)),
        None => None,
    }
}

/// `Expression`.
///
/// What starts with a term is read once: with operators behind the term it
/// is a binary expression, without one it is what the term holds.
pub open spec fn expression(s: Seq<char>, pos: int, depth: nat) -> Parsed
    decreases depth, 0int,
{
    if depth == 0 {
        None
    } else {
        let d = (depth - 1) as nat;
        let start = skip_space(s, pos);
        match unary_expression(s, pos, d) {
            Some(unary) => wrap(Rule::Expression, s, pos, Some(unary)),
            None => match term(s, pos, d) {
                Some((first, after_first)) => {
                    let (items, end) = operands(s, after_first, d, seq![first]);
                    if items.len() >= 3 {
                        let binary = tree(Rule::BinaryExpression, s, start, end, items);
                        Some((tree(Rule::Expression, s, start, end, seq![binary]), end))
                    } else if first.inner[0].rule == Rule::Identifier && boolean(s, pos) is Some {
                        wrap(Rule::Expression, s, pos, boolean(s, pos))
                    } else {
                        Some(
                            (
                                tree(Rule::Expression, s, start, after_first, seq![first.inner[0]]),
                                after_first,
                            ),
                        )
                    }
                },
                None => wrap(Rule::Expression, s, pos, string(s, pos)),
            },
        }
    }
}

/// `"(" Expression ")"`: the tree of the expression.
pub open spec fn parenthesized(s: Seq<char>, pos: int, depth: nat) -> Parsed
    decreases depth, 0int,
{
    if depth == 0 {
        None
    } else {
        match symbol(s, pos, "("@) {
            Some(open) => match expression(s, open, (depth - 1) as nat) {
                Some((t, end)) => match symbol(s, end, ")"@) {
                    Some(close) => Some((t, close)),
                    None => None,
                },
                None => None,
            },
            None => None,
        }
    }
}

/// `Term`.
pub open spec fn term(s: Seq<char>, pos: int, depth: nat) -> Parsed
    decreases depth, 0int,
{
    if depth == 0 {
        None
    } else {
        let d = (depth - 1) as nat;
        wrap(
            Rule::Term,
            s,
            pos,
            or_else(
                number(s, pos),
                or_else(parenthesized(s, pos, d), or_else(func_call(s, pos, d), identifier(s, pos))),
            ),
        )
    }
}

/// `(BinaryOperator Term)*`: the trees read, behind `acc`, and the position
/// behind the last of them.
pub open spec fn operands(s: Seq<char>, pos: int, depth: nat, acc: Seq<Tree>) -> (Seq<Tree>, int)
    decreases depth, s.len() - pos,
{
    if depth == 0 {
        (acc, pos)
    } else {
        match binary_operator(s, pos) {
            Some((op, after_op)) => match term(s, after_op, (depth - 1) as nat) {
                Some((t, end)) => if pos < end <= s.len() {
                    operands(s, end, depth, acc.push(op).push(t))
                } else {
                    (acc, pos)
                },
                None => (acc, pos),
            },
            None => (acc, pos),
        }
    }
}

/// `UnaryExpression`.
pub open spec fn unary_expression(s: Seq<char>, pos: int, depth: nat) -> Parsed
    decreases depth, 0int,
{
    if depth == 0 {
        None
    } else {
        match unary_operator(s, pos) {
            Some((op, after_op)) => match term(s, after_op, (depth - 1) as nat) {
                Some((t, end)) => Some(
                    (tree(Rule::UnaryExpression, s, skip_space(s, pos), end, seq![op, t]), end),
                ),
                None => None,
            },
            None => None,
        }
    }
}

/// `("," Expression)*`: the trees read, behind `acc`, and the position
/// behind the last of them.
pub open spec fn more_arguments(s: Seq<char>, pos: int, depth: nat, acc: Seq<Tree>) -> (
    Seq<Tree>,
    int,
)
    decreases depth, s.len() - pos,
{
    if depth == 0 {
        (acc, pos)
    } else {
        match symbol(s, pos, ","@) {
            Some(after_comma) => match expression(s, after_comma, (depth - 1) as nat) {
                Some((t, end)) => if pos < end <= s.len() {
                    more_arguments(s, end, depth, acc.push(t))
                } else {
                    (acc, pos)
                },
                None => (acc, pos),
            },
            None => (acc, pos),
        }
    }
}

/// `ArgList`. It matches everywhere, where need be as the empty list.
pub open spec fn arg_list(s: Seq<char>, pos: int, depth: nat) -> Parsed
    decreases depth, 0int,
{
    if depth == 0 {
        None
    } else {
        let d = (depth - 1) as nat;
        let start = skip_space(s, pos);
        match expression(s, pos, d) {
            Some((first, after_first)) => {
                let (items, end) = more_arguments(s, after_first, d, seq![first]);
                Some((tree(Rule::ArgList, s, start, end, items), end))
            },
            None => Some((tree(Rule::ArgList, s, start, start, Seq::empty()), start)),
        }
    }
}

/// `FuncCall`.
pub open spec fn func_call(s: Seq<char>, pos: int, depth: nat) -> Parsed
    decreases depth, 0int,
{
    if depth == 0 {
        None
    } else {
        match identifier(s, pos) {
            Some((name, after_name)) => match symbol(s, after_name, "("@) {
                Some(open) => match arg_list(s, open, (depth - 1) as nat) {
                    Some((args, after_args)) => match symbol(s, after_args, ")"@) {
                        Some(close) => Some(
                            (
                                tree(
                                    Rule::FuncCall,
                                    s,
                                    skip_space(s, pos),
                                    close,
                                    seq![name, args],
                                ),
                                close,
                            ),
                        ),
                        None => None,
                    },
                    None => None,
                },
                None => None,
            },
            None => None,
        }
    }
}

/// `("," Identifier)*`: the trees read, behind `acc`, and the position
/// behind the last of them.
pub open spec fn more_names(s: Seq<char>, pos: int, acc: Seq<Tree>) -> (Seq<Tree>, int)
    decreases s.len() - pos,
{
    match symbol(s, pos, ","@) {
        Some(after_comma) => match identifier(s, after_comma) {
            Some((t, end)) => if pos < end <= s.len() {
                more_names(s, end, acc.push(t))
            } else {
                (acc, pos)
            },
            None => (acc, pos),
        },
        None => (acc, pos),
    }
}

/// `DefArgList`. It matches everywhere, where need be as the empty list.
pub open spec fn def_arg_list(s: Seq<char>, pos: int) -> (Tree, int) {
    let start = skip_space(s, pos);
    match identifier(s, pos) {
        Some((first, after_first)) => {
            let (items, end) = more_names(s, after_first, seq![first]);
            (tree(Rule::DefArgList, s, start, end, items), end)
        },
        None => (tree(Rule::DefArgList, s, start, start, Seq::empty()), start),
    }
}

/// `VarDecl`.
pub open spec fn var_decl(s: Seq<char>, pos: int, depth: nat) -> Parsed
    decreases depth, 0int,
{
    if depth == 0 {
        None
    } else {
        let start = skip_space(s, pos);
        match keyword(s, pos, "let"@) {
            Some(after_let) => match identifier(s, after_let) {
                Some((name, after_name)) => {
                    let value = match symbol(s, after_name, "="@) {
                        Some(after_eq) => expression(s, after_eq, (depth - 1) as nat),
                        None => None,
                    };
                    match value {
                        Some((v, end)) => Some(
                            (tree(Rule::VarDecl, s, start, end, seq![name, v]), end),
                        ),
                        None => Some(
                            (tree(Rule::VarDecl, s, start, after_name, seq![name]), after_name),
                        ),
                    }
                },
                None => None,
            },
            None => None,
        }
    }
}

/// `VarSet`.
pub open spec fn var_set(s: Seq<char>, pos: int, depth: nat) -> Parsed
    decreases depth, 0int,
{
    if depth == 0 {
        None
    } else {
        match identifier(s, pos) {
            Some((name, after_name)) => match symbol(s, after_name, "="@) {
                Some(after_eq) => match expression(s, after_eq, (depth - 1) as nat) {
                    Some((v, end)) => Some(
                        (tree(Rule::VarSet, s, skip_space(s, pos), end, seq![name, v]), end),
                    ),
                    None => None,
                },
                None => None,
            },
            None => None,
        }
    }
}

/// `FuncReturn`.
pub open spec fn func_return(s: Seq<char>, pos: int, depth: nat) -> Parsed
    decreases depth, 0int,
{
    if depth == 0 {
        None
    } else {
        match keyword(s, pos, "return"@) {
            Some(after_word) => match expression(s, after_word, (depth - 1) as nat) {
                Some((v, end)) => Some(
                    (tree(Rule::FuncReturn, s, skip_space(s, pos), end, seq![v]), end),
                ),
                None => None,
            },
            None => None,
        }
    }
}

/// `Statement*`: the trees read, behind `acc`, and the position behind the
/// last of them.
pub open spec fn statements(s: Seq<char>, pos: int, depth: nat, acc: Seq<Tree>) -> (
    Seq<Tree>,
    int,
)
    decreases depth, s.len() - pos,
{
    if depth == 0 {
        (acc, pos)
    } else {
        match statement(s, pos, (depth - 1) as nat) {
            Some((t, end)) => if pos < end <= s.len() {
                statements(s, end, depth, acc.push(t))
            } else {
                (acc, pos)
            },
            None => (acc, pos),
        }
    }
}

/// `Block`.
pub open spec fn block(s: Seq<char>, pos: int, depth: nat) -> Parsed
    decreases depth, 0int,
{
    if depth == 0 {
        None
    } else {
        match symbol(s, pos, "{"@) {
            Some(open) => {
                let (items, after_items) = statements(s, open, (depth - 1) as nat, Seq::empty());
                match symbol(s, after_items, "}"@) {
                    Some(close) => Some(
                        (tree(Rule::Block, s, skip_space(s, pos), close, items), close),
                    ),
                    None => None,
                }
            },
            None => None,
        }
    }
}

/// `WhileLoop` and `IfStatement`: `word "(" Expression ")" Block`.
pub open spec fn conditional(rule: Rule, word: Seq<char>, s: Seq<char>, pos: int, depth: nat) -> Parsed
    decreases depth, 0int,
{
    if depth == 0 {
        None
    } else {
        let d = (depth - 1) as nat;
        match keyword(s, pos, word) {
            Some(after_word) => match parenthesized(s, after_word, d) {
                Some((condition, close)) => match block(s, close, d) {
                    Some((body, end)) => Some(
                        (tree(rule, s, skip_space(s, pos), end, seq![condition, body]), end),
                    ),
                    None => None,
                },
                None => None,
            },
            None => None,
        }
    }
}

/// `ForParams`.
pub open spec fn for_params(s: Seq<char>, pos: int, depth: nat) -> Parsed
    decreases depth, 0int,
{
    if depth == 0 {
        None
    } else {
        let d = (depth - 1) as nat;
        match statement(s, pos, d) {
            Some((first, after_first)) => match expression(s, after_first, d) {
                Some((condition, after_condition)) => match symbol(s, after_condition, ";"@) {
                    Some(after_semi) => match statement(s, after_semi, d) {
                        Some((last, end)) => Some(
                            (
                                tree(
                                    Rule::ForParams,
                                    s,
                                    skip_space(s, pos),
                                    end,
                                    seq![first, condition, last],
                                ),
                                end,
                            ),
                        ),
                        None => None,
                    },
                    None => None,
                },
                None => None,
            },
            None => None,
        }
    }
}

/// `ForLoop`.
pub open spec fn for_loop(s: Seq<char>, pos: int, depth: nat) -> Parsed
    decreases depth, 0int,
{
    if depth == 0 {
        None
    } else {
        let d = (depth - 1) as nat;
        match keyword(s, pos, "for"@) {
            Some(after_word) => match symbol(s, after_word, "("@) {
                Some(open) => match for_params(s, open, d) {
                    Some((params, after_params)) => match symbol(s, after_params, ")"@) {
                        Some(close) => match block(s, close, d) {
                            Some((body, end)) => Some(
                                (
                                    tree(
                                        Rule::ForLoop,
                                        s,
                                        skip_space(s, pos),
                                        end,
                                        seq![params, body],
                                    ),
                                    end,
                                ),
                            ),
                            None => None,
                        },
                        None => None,
                    },
                    None => None,
                },
                None => None,
            },
            None => None,
        }
    }
}

/// `VarDecl | FuncReturn | ForLoop | WhileLoop | IfStatement | FuncCall |
/// VarSet`: what a statement holds.
pub open spec fn any_statement(s: Seq<char>, pos: int, depth: nat) -> Parsed
    decreases depth, 1int,
{
    or_else(
        var_decl(s, pos, depth),
        or_else(
            func_return(s, pos, depth),
            or_else(
                for_loop(s, pos, depth),
                or_else(
                    conditional(Rule::WhileLoop, "while"@, s, pos, depth),
                    or_else(
                        conditional(Rule::IfStatement, "if"@, s, pos, depth),
                        or_else(func_call(s, pos, depth), var_set(s, pos, depth)),
                    ),
                ),
            ),
        ),
    )
}

/// `Statement`.
pub open spec fn statement(s: Seq<char>, pos: int, depth: nat) -> Parsed
    decreases depth, 0int,
{
    if depth == 0 {
        None
    } else {
        match any_statement(s, pos, (depth - 1) as nat) {
            Some((t, end)) => match symbol(s, end, ";"@) {
                Some(after_semi) => Some(
                    (tree(Rule::Statement, s, skip_space(s, pos), after_semi, seq![t]), after_semi),
                ),
                None => None,
            },
            None => None,
        }
    }
}

/// `FuncDef`.
pub open spec fn func_def(s: Seq<char>, pos: int, depth: nat) -> Parsed {
    match keyword(s, pos, "fn"@) {
        Some(after_word) => match identifier(s, after_word) {
            Some((name, after_name)) => match symbol(s, after_name, "("@) {
                Some(open) => {
                    let (params, after_params) = def_arg_list(s, open);
                    match symbol(s, after_params, ")"@) {
                        Some(close) => match block(s, close, depth) {
                            Some((body, end)) => Some(
                                (
                                    tree(
                                        Rule::FuncDef,
                                        s,
                                        skip_space(s, pos),
                                        end,
                                        seq![name, params, body],
                                    ),
                                    end,
                                ),
                            ),
                            None => None,
                        },
                        None => None,
                    }
                },
                None => None,
            },
            None => None,
        },
        None => None,
    }
}

/// `FuncDef*`: the trees read, behind `acc`, and the position behind the
/// last of them.
pub open spec fn func_defs(s: Seq<char>, pos: int, depth: nat, acc: Seq<Tree>) -> (Seq<Tree>, int)
    decreases s.len() - pos,
{
    match func_def(s, pos, depth) {
        Some((t, end)) => if pos < end <= s.len() {
            func_defs(s, end, depth, acc.push(t))
        } else {
            (acc, pos)
        },
        None => (acc, pos),
    }
}

/// The position at which no further function definition of `s` is read.
pub open spec fn program_stop(s: Seq<char>, depth: nat) -> int {
    skip_space(s, func_defs(s, 0, depth, Seq::empty()).1)
}

/// Where a block that is expected at `pos` and cannot be read goes wrong:
/// where no `{` stands, there; else at the statement behind which no `}`
/// stands.
pub open spec fn blame_block(s: Seq<char>, pos: int, depth: nat) -> int
    decreases depth,
{
    if depth < 2 {
        skip_space(s, pos)
    } else {
        match symbol(s, pos, "{"@) {
            Some(open) => {
                let stop = statements(s, open, (depth - 1) as nat, Seq::empty()).1;
                if symbol(s, stop, "}"@) is Some {
                    skip_space(s, pos)
                } else {
                    blame_statement(s, stop, (depth - 2) as nat)
                }
            },
            None => skip_space(s, pos),
        }
    }
}

/// Where a statement that is expected at `pos` and cannot be read goes
/// wrong. Where it starts with `for`, `while` or `if`: inside its header or
/// its block, where one of them cannot be read. Else, and where the loop or
/// the `if` can be read: behind what the statement holds, where only the `;`
/// is missing, or at its start.
pub open spec fn blame_statement(s: Seq<char>, pos: int, depth: nat) -> int
    decreases depth,
{
    if depth < 2 {
        skip_space(s, pos)
    } else {
        let d = (depth - 1) as nat;
        let inner = (depth - 2) as nat;
        match keyword(s, pos, "for"@) {
            Some(after_for) => match for_loop(s, pos, d) {
                Some((_, end)) => skip_space(s, end),
                None => match symbol(s, after_for, "("@) {
                    Some(open) => match for_params(s, open, inner) {
                        Some((_, after_params)) => match symbol(s, after_params, ")"@) {
                            Some(close) => blame_block(s, close, inner),
                            None => skip_space(s, after_params),
                        },
                        None => skip_space(s, open),
                    },
                    None => skip_space(s, after_for),
                },
            },
            None => match or_else_at(keyword(s, pos, "while"@), keyword(s, pos, "if"@)) {
                Some(after_word) => match or_else(
                    conditional(Rule::WhileLoop, "while"@, s, pos, d),
                    conditional(Rule::IfStatement, "if"@, s, pos, d),
                ) {
                    Some((_, end)) => skip_space(s, end),
                    None => match parenthesized(s, after_word, inner) {
                        Some((_, close)) => blame_block(s, close, inner),
                        None => skip_space(s, after_word),
                    },
                },
                None => match any_statement(s, pos, d) {
                    Some((_, end)) => skip_space(s, end),
                    None => skip_space(s, pos),
                },
            },
        }
    }
}

/// The first of two positions that is there.
pub open spec fn or_else_at(first: Option<int>, second: Option<int>) -> Option<int> {
    if first is Some {
        first
    } else {
        second
    }
}

/// Where a text that is no program goes wrong: behind its last function
/// definition where no further one starts; else where the header of the next
/// one breaks off, or inside its block.
pub open spec fn blame_program(s: Seq<char>, depth: nat) -> int {
    let stop = func_defs(s, 0, depth, Seq::empty()).1;
    match keyword(s, stop, "fn"@) {
        Some(after_word) => match identifier(s, after_word) {
            Some((_, after_name)) => match symbol(s, after_name, "("@) {
                Some(open) => {
                    let after_params = def_arg_list(s, open).1;
                    match symbol(s, after_params, ")"@) {
                        Some(close) => blame_block(s, close, depth),
                        None => skip_space(s, after_params),
                    }
                },
                None => skip_space(s, after_name),
            },
            None => skip_space(s, after_word),
        },
        None => skip_space(s, stop),
    }
}

/// `Program`: the tree of the whole text, where it is function definitions
/// from its start to its end.
pub open spec fn program(s: Seq<char>, depth: nat) -> Option<Tree> {
    let (defs, _) = func_defs(s, 0, depth, Seq::empty());
    let len = s.len() as int;
    if program_stop(s, depth) == len {
        Some(
            tree(
                Rule::Program,
                s,
                skip_space(s, 0),
                len,
                defs.push(tree(Rule::EOI, s, len, len, Seq::empty())),
            ),
        )
    } else {
        None
    }
}

/// The operators and operands that are read stand behind those that were
/// read before: of an odd number of trees, an odd number comes back, and the
/// first stay first.
pub proof fn lemma_operands_grow(s: Seq<char>, pos: int, depth: nat, acc: Seq<Tree>)
    requires
        acc.len() % 2 == 1,
    ensures
        operands(s, pos, depth, acc).0.len() % 2 == 1,
        operands(s, pos, depth, acc).0.len() >= acc.len(),
        operands(s, pos, depth, acc).0.subrange(0, acc.len() as int) == acc,
        operands(s, pos, depth, acc).0.len() == acc.len() ==> operands(s, pos, depth, acc).1 == pos,
    decreases depth, s.len() - pos,
{
    let out = operands(s, pos, depth, acc).0;
    if depth > 0 {
        match binary_operator(s, pos) {
            Some((op, after_op)) => match term(s, after_op, (depth - 1) as nat) {
                Some((t, end)) => {
                    if pos < end <= s.len() {
                        let next = acc.push(op).push(t);
                        lemma_operands_grow(s, end, depth, next);
                        assert(out.subrange(0, acc.len() as int) =~= out.subrange(
                            0,
                            next.len() as int,
                        ).subrange(0, acc.len() as int));
                        assert(next.subrange(0, acc.len() as int) =~= acc);
                    }
                },
                None => {},
            },
            None => {},
        }
    }
    assert(acc.subrange(0, acc.len() as int) =~= acc);
}

/// The bound under which a text is read as under every larger one: eight
/// levels for each of its characters, and eight more.
pub open spec fn enough(s: Seq<char>) -> nat {
    (8 * s.len() + 8) as nat
}

/// The bound under which the text of `input` is read as under every larger
/// one.
pub fn enough_for(input: &Input) -> (r: u128)
    ensures
        r == enough(input@),
{
    let len: u128 = input.len() as u128;
    8 * len + 8
}

/// The list that holds `a`.
pub fn list1(a: Pair) -> (r: Vec<Pair>)
    ensures
        pairs_model(&r) == seq![a@],
{
    let mut r: Vec<Pair> = Vec::new();
    r.push(a);
    assert(pairs_model(&r) =~= seq![a@]);
    r
}

/// The list that holds `a` and `b`.
pub fn list2(a: Pair, b: Pair) -> (r: Vec<Pair>)
    ensures
        pairs_model(&r) == seq![a@, b@],
{
    let mut r: Vec<Pair> = Vec::new();
    r.push(a);
    r.push(b);
    assert(pairs_model(&r) =~= seq![a@, b@]);
    r
}

/// The list that holds `a`, `b` and `c`.
pub fn list3(a: Pair, b: Pair, c: Pair) -> (r: Vec<Pair>)
    ensures
        pairs_model(&r) == seq![a@, b@, c@],
{
    let mut r: Vec<Pair> = Vec::new();
    r.push(a);
    r.push(b);
    r.push(c);
    assert(pairs_model(&r) =~= seq![a@, b@, c@]);
    r
}

/// Appends `a` to `v`.
pub fn push_pair(v: &mut Vec<Pair>, a: Pair)
    ensures
        pairs_model(final(v)) == pairs_model(old(v)).push(a@),
{
    v.push(a);
    assert(pairs_model(v) =~= pairs_model(old(v)).push(a@));
}

/// The node of `rule` around the one node that `child` read.
fn wrap_at(rule: Rule, input: &Input, pos: usize, child: Option<(Pair, usize)>) -> (r: Option<
    (Pair, usize),
>)
    requires
        pos <= input@.len(),
        child matches Some((_, end)) ==> within(input@, pos as int, end as int),
    ensures
        parsed_model(r) == wrap(rule, input@, pos as int, parsed_model(child)),
        r matches Some((_, end)) ==> within(input@, pos as int, end as int),
{
    match child {
        Some((t, end)) => {
            let start = skip_space_at(input, pos);
            Some((input.pair(rule, start, end, list1(t)), end))
        },
        None => None,
    }
}

/// Reads an `Expression`.
pub fn expression_at(input: &Input, pos: usize, depth: u128) -> (r: Option<(Pair, usize)>)
    requires
        pos <= input@.len(),
    ensures
        parsed_model(r) == expression(input@, pos as int, depth as nat),
        r matches Some((_, end)) ==> within(input@, pos as int, end as int),
    decreases depth, 0int,
{
    if depth == 0 {
        return None;
    }
    let d = depth - 1;
    let start = skip_space_at(input, pos);
    let unary = unary_expression_at(input, pos, d);
    if unary.is_some() {
        return wrap_at(Rule::Expression, input, pos, unary);
    }
    let (first, after_first) = match term_at(input, pos, d) {
        Some(r) => r,
        None => {
            return wrap_at(Rule::Expression, input, pos, string_at(input, pos));
        },
    };
    let ghost first_model = first@;
    let mut items = list1(first);
    let end = operands_at(input, after_first, d, &mut items);
    if items.len() >= 3 {
        let binary = input.pair(Rule::BinaryExpression, start, end, items);
        return Some((input.pair(Rule::Expression, start, end, list1(binary)), end));
    }
    // No operator was read: the list holds the term and nothing else.
    proof {
        reveal_with_fuel(operands, 2);
        lemma_operands_grow(input@, after_first as int, d as nat, seq![first_model]);
        assert(pairs_model(&items) =~= seq![first_model]);
        assert(first_model.inner.len() == 1);
        assert(pairs_model(&items)[0] == items@[0]@);
    }
    let mut term_pair = items.pop().unwrap();
    assert(term_pair@ == first_model);
    assert(term_pair@.inner[0] == term_pair.inner@[0]@);
    let held = term_pair.inner.pop().unwrap();
    assert(held@ == first_model.inner[0]);
    match held.rule {
        Rule::Identifier => {
            let truth = boolean_at(input, pos);
            if truth.is_some() {
                return wrap_at(Rule::Expression, input, pos, truth);
            }
        },
        _ => {},
    }
    Some((input.pair(Rule::Expression, start, after_first, list1(held)), after_first))
}

/// Reads `"(" Expression ")"`.
pub fn parenthesized_at(input: &Input, pos: usize, depth: u128) -> (r: Option<(Pair, usize)>)
    requires
        pos <= input@.len(),
    ensures
        parsed_model(r) == parenthesized(input@, pos as int, depth as nat),
        r matches Some((_, end)) ==> within(input@, pos as int, end as int),
    decreases depth, 0int,
{
    if depth == 0 {
        return None;
    }
    let start = skip_space_at(input, pos);
    let open = match symbol_at(input, pos, "(") {
        Some(e) => e,
        None => {
            return None;
        },
    };
    let (t, end) = match expression_at(input, open, depth - 1) {
        Some(r) => r,
        None => {
            return None;
        },
    };
    match symbol_at(input, end, ")") {
        Some(close) => Some((t, close)),
        None => None,
    }
}

/// Reads a `Term`.
pub fn term_at(input: &Input, pos: usize, depth: u128) -> (r: Option<(Pair, usize)>)
    requires
        pos <= input@.len(),
    ensures
        parsed_model(r) == term(input@, pos as int, depth as nat),
        r matches Some((_, end)) ==> within(input@, pos as int, end as int),
    decreases depth, 0int,
{
    if depth == 0 {
        return None;
    }
    let d = depth - 1;
    let mut alt = number_at(input, pos);
    if alt.is_none() {
        alt = parenthesized_at(input, pos, d);
    }
    if alt.is_none() {
        alt = func_call_at(input, pos, d);
    }
    if alt.is_none() {
        alt = identifier_at(input, pos);
    }
    wrap_at(Rule::Term, input, pos, alt)
}

/// Reads `(BinaryOperator Term)*` behind `items`.
fn operands_at(input: &Input, pos: usize, depth: u128, items: &mut Vec<Pair>) -> (end: usize)
    requires
        pos <= input@.len(),
    ensures
        (pairs_model(final(items)), end as int) == operands(
            input@,
            pos as int,
            depth as nat,
            pairs_model(old(items)),
        ),
        pos <= end <= input@.len(),
    decreases depth, 0int,
{
    let mut at = pos;
    if depth == 0 {
        return at;
    }
    loop
        invariant
                depth > 0,
            pos <= at <= input@.len(),
            operands(input@, pos as int, depth as nat, pairs_model(old(items))) == operands(
                input@,
                at as int,
                depth as nat,
                pairs_model(items),
            ),
        decreases input@.len() - at,
    {
        let (op, after_op) = match binary_operator_at(input, at) {
            Some(r) => r,
            None => {
                return at;
            },
        };
        let (t, end) = match term_at(input, after_op, depth - 1) {
            Some(r) => r,
            None => {
                return at;
            },
        };
        if end <= at {
            return at;
        }
        push_pair(items, op);
        push_pair(items, t);
        at = end;
    }
}

/// Reads a `UnaryExpression`.
pub fn unary_expression_at(input: &Input, pos: usize, depth: u128) -> (r: Option<(Pair, usize)>)
    requires
        pos <= input@.len(),
    ensures
        parsed_model(r) == unary_expression(input@, pos as int, depth as nat),
        r matches Some((_, end)) ==> within(input@, pos as int, end as int),
    decreases depth, 0int,
{
    if depth == 0 {
        return None;
    }
    let start = skip_space_at(input, pos);
    let (op, after_op) = match unary_operator_at(input, pos) {
        Some(r) => r,
        None => {
            return None;
        },
    };
    match term_at(input, after_op, depth - 1) {
        Some((t, end)) => Some((input.pair(Rule::UnaryExpression, start, end, list2(op, t)), end)),
        None => None,
    }
}

/// Reads `("," Expression)*` behind `items`.
fn more_arguments_at(input: &Input, pos: usize, depth: u128, items: &mut Vec<Pair>) -> (end: usize)
    requires
        pos <= input@.len(),
    ensures
        (pairs_model(final(items)), end as int) == more_arguments(
            input@,
            pos as int,
            depth as nat,
            pairs_model(old(items)),
        ),
        pos <= end <= input@.len(),
    decreases depth, 0int,
{
    let mut at = pos;
    if depth == 0 {
        return at;
    }
    loop
        invariant
                depth > 0,
            pos <= at <= input@.len(),
            more_arguments(input@, pos as int, depth as nat, pairs_model(old(items)))
                == more_arguments(input@, at as int, depth as nat, pairs_model(items)),
        decreases input@.len() - at,
    {
        proof {
            reveal_strlit(",");
        }
        let after_comma = match symbol_at(input, at, ",") {
            Some(e) => e,
            None => {
                return at;
            },
        };
        let (t, end) = match expression_at(input, after_comma, depth - 1) {
            Some(r) => r,
            None => {
                return at;
            },
        };
        if end <= at {
            return at;
        }
        push_pair(items, t);
        at = end;
    }
}

/// Reads an `ArgList`.
pub fn arg_list_at(input: &Input, pos: usize, depth: u128) -> (r: Option<(Pair, usize)>)
    requires
        pos <= input@.len(),
    ensures
        parsed_model(r) == arg_list(input@, pos as int, depth as nat),
        r matches Some((_, end)) ==> within(input@, pos as int, end as int),
    decreases depth, 0int,
{
    if depth == 0 {
        return None;
    }
    let d = depth - 1;
    let start = skip_space_at(input, pos);
    match expression_at(input, pos, d) {
        Some((first, after_first)) => {
            let mut items = list1(first);
            let end = more_arguments_at(input, after_first, d, &mut items);
            Some((input.pair(Rule::ArgList, start, end, items), end))
        },
        None => Some((input.leaf(Rule::ArgList, start, start), start)),
    }
}

/// Reads a `FuncCall`.
pub fn func_call_at(input: &Input, pos: usize, depth: u128) -> (r: Option<(Pair, usize)>)
    requires
        pos <= input@.len(),
    ensures
        parsed_model(r) == func_call(input@, pos as int, depth as nat),
        r matches Some((_, end)) ==> within(input@, pos as int, end as int),
    decreases depth, 0int,
{
    if depth == 0 {
        return None;
    }
    let start = skip_space_at(input, pos);
    let (name, after_name) = match identifier_at(input, pos) {
        Some(r) => r,
        None => {
            return None;
        },
    };
    let open = match symbol_at(input, after_name, "(") {
        Some(e) => e,
        None => {
            return None;
        },
    };
    let (args, after_args) = match arg_list_at(input, open, depth - 1) {
        Some(r) => r,
        None => {
            return None;
        },
    };
    match symbol_at(input, after_args, ")") {
        Some(close) => Some((input.pair(Rule::FuncCall, start, close, list2(name, args)), close)),
        None => None,
    }
}

/// Reads `("," Identifier)*` behind `items`.
fn more_names_at(input: &Input, pos: usize, items: &mut Vec<Pair>) -> (end: usize)
    requires
        pos <= input@.len(),
    ensures
        (pairs_model(final(items)), end as int) == more_names(
            input@,
            pos as int,
            pairs_model(old(items)),
        ),
        pos <= end <= input@.len(),
{
    let mut at = pos;
    loop
        invariant
                pos <= at <= input@.len(),
            more_names(input@, pos as int, pairs_model(old(items))) == more_names(
                input@,
                at as int,
                pairs_model(items),
            ),
        decreases input@.len() - at,
    {
        let after_comma = match symbol_at(input, at, ",") {
            Some(e) => e,
            None => {
                return at;
            },
        };
        let (t, end) = match identifier_at(input, after_comma) {
            Some(r) => r,
            None => {
                return at;
            },
        };
        if end <= at {
            return at;
        }
        push_pair(items, t);
        at = end;
    }
}

/// Reads a `DefArgList`.
pub fn def_arg_list_at(input: &Input, pos: usize) -> (r: (Pair, usize))
    requires
        pos <= input@.len(),
    ensures
        (r.0@, r.1 as int) == def_arg_list(input@, pos as int),
        within(input@, pos as int, r.1 as int),
{
    let start = skip_space_at(input, pos);
    match identifier_at(input, pos) {
        Some((first, after_first)) => {
            let mut items = list1(first);
            let end = more_names_at(input, after_first, &mut items);
            (input.pair(Rule::DefArgList, start, end, items), end)
        },
        None => (input.leaf(Rule::DefArgList, start, start), start),
    }
}

/// Reads a `VarDecl`.
pub fn var_decl_at(input: &Input, pos: usize, depth: u128) -> (r: Option<(Pair, usize)>)
    requires
        pos <= input@.len(),
    ensures
        parsed_model(r) == var_decl(input@, pos as int, depth as nat),
        r matches Some((_, end)) ==> within(input@, pos as int, end as int),
    decreases depth, 0int,
{
    if depth == 0 {
        return None;
    }
    let start = skip_space_at(input, pos);
    let after_let = match keyword_at(input, pos, "let") {
        Some(e) => e,
        None => {
            return None;
        },
    };
    let (name, after_name) = match identifier_at(input, after_let) {
        Some(r) => r,
        None => {
            return None;
        },
    };
    let value = match symbol_at(input, after_name, "=") {
        Some(after_eq) => expression_at(input, after_eq, depth - 1),
        None => None,
    };
    match value {
        Some((v, end)) => Some((input.pair(Rule::VarDecl, start, end, list2(name, v)), end)),
        None => Some((input.pair(Rule::VarDecl, start, after_name, list1(name)), after_name)),
    }
}

/// Reads a `VarSet`.
pub fn var_set_at(input: &Input, pos: usize, depth: u128) -> (r: Option<(Pair, usize)>)
    requires
        pos <= input@.len(),
    ensures
        parsed_model(r) == var_set(input@, pos as int, depth as nat),
        r matches Some((_, end)) ==> within(input@, pos as int, end as int),
    decreases depth, 0int,
{
    if depth == 0 {
        return None;
    }
    let start = skip_space_at(input, pos);
    let (name, after_name) = match identifier_at(input, pos) {
        Some(r) => r,
        None => {
            return None;
        },
    };
    let after_eq = match symbol_at(input, after_name, "=") {
        Some(e) => e,
        None => {
            return None;
        },
    };
    match expression_at(input, after_eq, depth - 1) {
        Some((v, end)) => Some((input.pair(Rule::VarSet, start, end, list2(name, v)), end)),
        None => None,
    }
}

/// Reads a `FuncReturn`.
pub fn func_return_at(input: &Input, pos: usize, depth: u128) -> (r: Option<(Pair, usize)>)
    requires
        pos <= input@.len(),
    ensures
        parsed_model(r) == func_return(input@, pos as int, depth as nat),
        r matches Some((_, end)) ==> within(input@, pos as int, end as int),
    decreases depth, 0int,
{
    if depth == 0 {
        return None;
    }
    let start = skip_space_at(input, pos);
    let after_word = match keyword_at(input, pos, "return") {
        Some(e) => e,
        None => {
            return None;
        },
    };
    match expression_at(input, after_word, depth - 1) {
        Some((v, end)) => Some((input.pair(Rule::FuncReturn, start, end, list1(v)), end)),
        None => None,
    }
}

/// Reads `Statement*`.
fn statements_at(input: &Input, pos: usize, depth: u128) -> (r: (Vec<Pair>, usize))
    requires
        pos <= input@.len(),
    ensures
        (pairs_model(&r.0), r.1 as int) == statements(
            input@,
            pos as int,
            depth as nat,
            Seq::empty(),
        ),
        pos <= r.1 <= input@.len(),
    decreases depth, 0int,
{
    let mut items: Vec<Pair> = Vec::new();
    assert(pairs_model(&items) =~= Seq::empty());
    let mut at = pos;
    if depth == 0 {
        return (items, at);
    }
    loop
        invariant
                depth > 0,
            pos <= at <= input@.len(),
            statements(input@, pos as int, depth as nat, Seq::empty()) == statements(
                input@,
                at as int,
                depth as nat,
                pairs_model(&items),
            ),
        decreases input@.len() - at,
    {
        let (t, end) = match statement_at(input, at, depth - 1) {
            Some(r) => r,
            None => {
                return (items, at);
            },
        };
        if end <= at {
            return (items, at);
        }
        push_pair(&mut items, t);
        at = end;
    }
}

/// Reads a `Block`.
pub fn block_at(input: &Input, pos: usize, depth: u128) -> (r: Option<(Pair, usize)>)
    requires
        pos <= input@.len(),
    ensures
        parsed_model(r) == block(input@, pos as int, depth as nat),
        r matches Some((_, end)) ==> within(input@, pos as int, end as int),
    decreases depth, 0int,
{
    if depth == 0 {
        return None;
    }
    let start = skip_space_at(input, pos);
    let open = match symbol_at(input, pos, "{") {
        Some(e) => e,
        None => {
            return None;
        },
    };
    let (items, after_items) = statements_at(input, open, depth - 1);
    match symbol_at(input, after_items, "}") {
        Some(close) => Some((input.pair(Rule::Block, start, close, items), close)),
        None => None,
    }
}

/// Reads a `WhileLoop` or an `IfStatement`.
pub fn conditional_at(rule: Rule, word: &str, input: &Input, pos: usize, depth: u128) -> (r: Option<
    (Pair, usize),
>)
    requires
        pos <= input@.len(),
    ensures
        parsed_model(r) == conditional(rule, word@, input@, pos as int, depth as nat),
        r matches Some((_, end)) ==> within(input@, pos as int, end as int),
    decreases depth, 0int,
{
    if depth == 0 {
        return None;
    }
    let d = depth - 1;
    let start = skip_space_at(input, pos);
    let after_word = match keyword_at(input, pos, word) {
        Some(e) => e,
        None => {
            return None;
        },
    };
    let (condition, close) = match parenthesized_at(input, after_word, d) {
        Some(r) => r,
        None => {
            return None;
        },
    };
    match block_at(input, close, d) {
        Some((body, end)) => Some((input.pair(rule, start, end, list2(condition, body)), end)),
        None => None,
    }
}

/// Reads `ForParams`.
pub fn for_params_at(input: &Input, pos: usize, depth: u128) -> (r: Option<(Pair, usize)>)
    requires
        pos <= input@.len(),
    ensures
        parsed_model(r) == for_params(input@, pos as int, depth as nat),
        r matches Some((_, end)) ==> within(input@, pos as int, end as int),
    decreases depth, 0int,
{
    if depth == 0 {
        return None;
    }
    let d = depth - 1;
    let start = skip_space_at(input, pos);
    let (first, after_first) = match statement_at(input, pos, d) {
        Some(r) => r,
        None => {
            return None;
        },
    };
    let (condition, after_condition) = match expression_at(input, after_first, d) {
        Some(r) => r,
        None => {
            return None;
        },
    };
    let after_semi = match symbol_at(input, after_condition, ";") {
        Some(e) => e,
        None => {
            return None;
        },
    };
    match statement_at(input, after_semi, d) {
        Some((last, end)) => Some(
            (input.pair(Rule::ForParams, start, end, list3(first, condition, last)), end),
        ),
        None => None,
    }
}

/// Reads a `ForLoop`.
pub fn for_loop_at(input: &Input, pos: usize, depth: u128) -> (r: Option<(Pair, usize)>)
    requires
        pos <= input@.len(),
    ensures
        parsed_model(r) == for_loop(input@, pos as int, depth as nat),
        r matches Some((_, end)) ==> within(input@, pos as int, end as int),
    decreases depth, 0int,
{
    if depth == 0 {
        return None;
    }
    let d = depth - 1;
    let start = skip_space_at(input, pos);
    let after_word = match keyword_at(input, pos, "for") {
        Some(e) => e,
        None => {
            return None;
        },
    };
    let open = match symbol_at(input, after_word, "(") {
        Some(e) => e,
        None => {
            return None;
        },
    };
    let (params, after_params) = match for_params_at(input, open, d) {
        Some(r) => r,
        None => {
            return None;
        },
    };
    let close = match symbol_at(input, after_params, ")") {
        Some(e) => e,
        None => {
            return None;
        },
    };
    match block_at(input, close, d) {
        Some((body, end)) => Some((input.pair(Rule::ForLoop, start, end, list2(params, body)), end)),
        None => None,
    }
}

/// Reads what a statement holds.
pub fn any_statement_at(input: &Input, pos: usize, depth: u128) -> (r: Option<(Pair, usize)>)
    requires
        pos <= input@.len(),
    ensures
        parsed_model(r) == any_statement(input@, pos as int, depth as nat),
        r matches Some((_, end)) ==> within(input@, pos as int, end as int),
    decreases depth, 1int,
{
    let mut what = var_decl_at(input, pos, depth);
    if what.is_none() {
        what = func_return_at(input, pos, depth);
    }
    if what.is_none() {
        what = for_loop_at(input, pos, depth);
    }
    if what.is_none() {
        what = conditional_at(Rule::WhileLoop, "while", input, pos, depth);
    }
    if what.is_none() {
        what = conditional_at(Rule::IfStatement, "if", input, pos, depth);
    }
    if what.is_none() {
        what = func_call_at(input, pos, depth);
    }
    if what.is_none() {
        what = var_set_at(input, pos, depth);
    }
    what
}

/// Reads a `Statement`.
pub fn statement_at(input: &Input, pos: usize, depth: u128) -> (r: Option<(Pair, usize)>)
    requires
        pos <= input@.len(),
    ensures
        parsed_model(r) == statement(input@, pos as int, depth as nat),
        r matches Some((_, end)) ==> within(input@, pos as int, end as int),
    decreases depth, 0int,
{
    if depth == 0 {
        return None;
    }
    let start = skip_space_at(input, pos);
    let (t, end) = match any_statement_at(input, pos, depth - 1) {
        Some(r) => r,
        None => {
            return None;
        },
    };
    match symbol_at(input, end, ";") {
        Some(after_semi) => Some(
            (input.pair(Rule::Statement, start, after_semi, list1(t)), after_semi),
        ),
        None => None,
    }
}

/// Finds where a block that is expected at `pos` goes wrong.
pub fn blame_block_at(input: &Input, pos: usize, depth: u128) -> (r: usize)
    requires
        pos <= input@.len(),
    ensures
        r == blame_block(input@, pos as int, depth as nat),
        r <= input@.len(),
    decreases depth, 0int,
{
    if depth < 2 {
        return skip_space_at(input, pos);
    }
    match symbol_at(input, pos, "{") {
        Some(open) => {
            let (_, stop) = statements_at(input, open, depth - 1);
            if symbol_at(input, stop, "}").is_some() {
                skip_space_at(input, pos)
            } else {
                blame_statement_at(input, stop, depth - 2)
            }
        },
        None => skip_space_at(input, pos),
    }
}

/// Finds where a statement that is expected at `pos` goes wrong.
pub fn blame_statement_at(input: &Input, pos: usize, depth: u128) -> (r: usize)
    requires
        pos <= input@.len(),
    ensures
        r == blame_statement(input@, pos as int, depth as nat),
        r <= input@.len(),
    decreases depth, 0int,
{
    if depth < 2 {
        return skip_space_at(input, pos);
    }
    let d = depth - 1;
    let inner = depth - 2;
    match keyword_at(input, pos, "for") {
        Some(after_for) => {
            match for_loop_at(input, pos, d) {
                Some((_, end)) => {
                    return skip_space_at(input, end);
                },
                None => {},
            }
            let open = match symbol_at(input, after_for, "(") {
                Some(e) => e,
                None => {
                    return skip_space_at(input, after_for);
                },
            };
            let after_params = match for_params_at(input, open, inner) {
                Some((_, e)) => e,
                None => {
                    return skip_space_at(input, open);
                },
            };
            return match symbol_at(input, after_params, ")") {
                Some(close) => blame_block_at(input, close, inner),
                None => skip_space_at(input, after_params),
            };
        },
        None => {},
    }
    let word = match keyword_at(input, pos, "while") {
        Some(e) => Some(e),
        None => keyword_at(input, pos, "if"),
    };
    match word {
        Some(after_word) => {
            let mut whole = conditional_at(Rule::WhileLoop, "while", input, pos, d);
            if whole.is_none() {
                whole = conditional_at(Rule::IfStatement, "if", input, pos, d);
            }
            match whole {
                Some((_, end)) => skip_space_at(input, end),
                None => match parenthesized_at(input, after_word, inner) {
                    Some((_, close)) => blame_block_at(input, close, inner),
                    None => skip_space_at(input, after_word),
                },
            }
        },
        None => match any_statement_at(input, pos, d) {
            Some((_, end)) => skip_space_at(input, end),
            None => skip_space_at(input, pos),
        },
    }
}

/// Reads a `FuncDef`.
pub fn func_def_at(input: &Input, pos: usize, depth: u128) -> (r: Option<(Pair, usize)>)
    requires
        pos <= input@.len(),
    ensures
        parsed_model(r) == func_def(input@, pos as int, depth as nat),
        r matches Some((_, end)) ==> within(input@, pos as int, end as int),
{
    let start = skip_space_at(input, pos);
    let after_word = match keyword_at(input, pos, "fn") {
        Some(e) => e,
        None => {
            return None;
        },
    };
    let (name, after_name) = match identifier_at(input, after_word) {
        Some(r) => r,
        None => {
            return None;
        },
    };
    let open = match symbol_at(input, after_name, "(") {
        Some(e) => e,
        None => {
            return None;
        },
    };
    let (params, after_params) = def_arg_list_at(input, open);
    let close = match symbol_at(input, after_params, ")") {
        Some(e) => e,
        None => {
            return None;
        },
    };
    match block_at(input, close, depth) {
        Some((body, end)) => Some(
            (input.pair(Rule::FuncDef, start, end, list3(name, params, body)), end),
        ),
        None => None,
    }
}

/// Reads `FuncDef*`.
fn func_defs_at(input: &Input, depth: u128) -> (r: (Vec<Pair>, usize))
    ensures
        (pairs_model(&r.0), r.1 as int) == func_defs(input@, 0, depth as nat, Seq::empty()),
        r.1 <= input@.len(),
{
    let len = input.len();
    let mut defs: Vec<Pair> = Vec::new();
    assert(pairs_model(&defs) =~= Seq::empty());
    let mut at: usize = 0;
    loop
        invariant
                len == input@.len(),
            at <= len,
            func_defs(input@, 0, depth as nat, Seq::empty()) == func_defs(
                input@,
                at as int,
                depth as nat,
                pairs_model(&defs),
            ),
        decreases len - at,
    {
        let (t, end) = match func_def_at(input, at, depth) {
            Some(r) => r,
            None => {
                return (defs, at);
            },
        };
        if end <= at {
            return (defs, at);
        }
        push_pair(&mut defs, t);
        at = end;
    }
}

/// Finds where an input that is no program goes wrong.
pub fn blame_program_at(input: &Input, depth: u128) -> (r: usize)
    ensures
        r == blame_program(input@, depth as nat),
        r <= input@.len(),
{
    let (_, stop) = func_defs_at(input, depth);
    let after_word = match keyword_at(input, stop, "fn") {
        Some(e) => e,
        None => {
            return skip_space_at(input, stop);
        },
    };
    let after_name = match identifier_at(input, after_word) {
        Some((_, e)) => e,
        None => {
            return skip_space_at(input, after_word);
        },
    };
    let open = match symbol_at(input, after_name, "(") {
        Some(e) => e,
        None => {
            return skip_space_at(input, after_name);
        },
    };
    let (_, after_params) = def_arg_list_at(input, open);
    match symbol_at(input, after_params, ")") {
        Some(close) => blame_block_at(input, close, depth),
        None => skip_space_at(input, after_params),
    }
}

/// Reads a `Program`: the tree of the whole input, or the position at which
/// the input goes wrong.
pub fn program_at(input: &Input, depth: u128) -> (r: Result<Pair, usize>)
    ensures
        match r {
            Ok(pair) => program(input@, depth as nat) == Some(pair@),
            Err(position) => program(input@, depth as nat) is None && position == blame_program(
                input@,
                depth as nat,
            ) && position <= input@.len(),
        },
{
    let len = input.len();
    let (defs, at) = func_defs_at(input, depth);
    let mut defs = defs;
    let stop = skip_space_at(input, at);
    if stop == len {
        let start = skip_space_at(input, 0);
        push_pair(&mut defs, input.leaf(Rule::EOI, len, len));
        Ok(input.pair(Rule::Program, start, len, defs))
    } else {
        Err(blame_program_at(input, depth))
    }
}

} // verus!
