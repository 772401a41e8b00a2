//! Native types and the predicates that recognise their literals.

use vstd::prelude::*;
use vstd::string::*;

verus! {

/// Which literals a native type claims.
#[derive(Clone, Copy, Debug, PartialEq, Eq, Structural)]
pub enum LiteralKind {
    /// A decimal integer that fits in 64 signed bits.
    Integer,
    /// A run of characters between two double quotes.
    Quoted,
}

/// A decimal digit.
pub open spec fn is_digit(c: char) -> bool {
    '0' <= c && c <= '9'
}

/// The number a decimal digit denotes; zero for any other character.
pub open spec fn digit_of(c: char) -> nat {
    if is_digit(c) {
        (c as nat - '0' as nat) as nat
    } else {
        0
    }
}

/// The number a run of decimal digits denotes, most significant digit first.
pub open spec fn decimal_value(s: Seq<char>) -> nat
    decreases s.len(),
{
    if s.len() == 0 {
        0
    } else {
        decimal_value(s.drop_last()) * 10 + digit_of(s.last())
    }
}

/// Every character is a decimal digit.
pub open spec fn all_digits(s: Seq<char>) -> bool {
    forall|i: int| 0 <= i < s.len() ==> is_digit(#[trigger] s[i])
}

/// A non-empty run of digits whose value is at most `limit`.
pub open spec fn digits_within(s: Seq<char>, limit: nat) -> bool {
    s.len() > 0 && all_digits(s) && decimal_value(s) <= limit
}

/// An optional sign followed by digits, denoting a number from -2^63 to 2^63 - 1.
pub open spec fn is_i64_literal(s: Seq<char>) -> bool {
    if s.len() > 0 && s[0] == '-' {
        digits_within(s.subrange(1, s.len() as int), 0x8000_0000_0000_0000)
    } else if s.len() > 0 && s[0] == '+' {
        digits_within(s.subrange(1, s.len() as int), 0x7fff_ffff_ffff_ffff)
    } else {
        digits_within(s, 0x7fff_ffff_ffff_ffff)
    }
}

/// At least two characters, the first and the last a double quote.
pub open spec fn is_str_literal(s: Seq<char>) -> bool {
    s.len() > 1 && s[0] == '"' && s[s.len() - 1] == '"'
}

/// Whether the text `s` is one of the literals that `kind` claims.
pub open spec fn kind_accepts(kind: LiteralKind, s: Seq<char>) -> bool {
    match kind {
        LiteralKind::Integer => is_i64_literal(s),
        LiteralKind::Quoted => is_str_literal(s),
    }
}

proof fn lemma_decimal_value_push(s: Seq<char>, c: char)
    ensures
        decimal_value(s.push(c)) == decimal_value(s) * 10 + digit_of(c),
{
    assert(s.push(c).drop_last() =~= s);
}

/// Whether `s[from..]` is a non-empty run of digits of value at most `limit`.
fn digits_within_limit(s: &str, from: usize, limit: u64) -> (ok: bool)
    requires
        from <= s@.len(),
        limit <= 0x8000_0000_0000_0000,
    ensures
        ok == digits_within(s@.subrange(from as int, s@.len() as int), limit as nat),
{
    let n: usize = s.unicode_len();
    if from >= n {
        return false;
    }
    let ghost run = s@.subrange(from as int, n as int);
    let mut value: u64 = 0;
    let mut over: bool = false;
    let mut i: usize = from;
    while i < n
        invariant
            from <= i <= n,
            n == s@.len(),
            run == s@.subrange(from as int, n as int),
            limit <= 0x8000_0000_0000_0000,
            all_digits(run.subrange(0, i - from)),
            !over ==> value == decimal_value(run.subrange(0, i - from)) && value <= limit,
            over ==> decimal_value(run.subrange(0, i - from)) > limit,
        decreases n - i,
    {
        let c: char = s.get_char(i);
        let ghost before = run.subrange(0, i - from);
        proof {
            assert(run.subrange(0, i + 1 - from) =~= before.push(c));
            lemma_decimal_value_push(before, c);
        }
        if !(c >= '0' && c <= '9') {
            proof {
                assert(run[i - from] == c);
                assert(!all_digits(run));
            }
            return false;
        }
        let digit: u64 = (c as u64) - ('0' as u64);
        if !over {
            let next: u128 = (value as u128) * 10 + (digit as u128);
            if next > limit as u128 {
                over = true;
            } else {
                value = next as u64;
            }
        }
        i = i + 1;
    }
    proof {
        assert(run.subrange(0, n - from) =~= run);
    }
    !over
}

/// Whether `literal` reads as a signed 64-bit decimal integer.
pub fn valid_i64_literal(literal: &str) -> (ok: bool)
    ensures
        ok == is_i64_literal(literal@),
{
    let n: usize = literal.unicode_len();
    if n == 0 {
        return false;
    }
    let first: char = literal.get_char(0);
    if first == '-' {
        digits_within_limit(literal, 1, 0x8000_0000_0000_0000)
    } else if first == '+' {
        digits_within_limit(literal, 1, 0x7fff_ffff_ffff_ffff)
    } else {
        proof {
            assert(literal@.subrange(0, literal@.len() as int) =~= literal@);
        }
        digits_within_limit(literal, 0, 0x7fff_ffff_ffff_ffff)
    }
}

/// Whether `literal` is a quoted string.
pub fn valid_str_literal(literal: &str) -> (ok: bool)
    ensures
        ok == is_str_literal(literal@),
{
    let n: usize = literal.unicode_len();
    n > 1 && literal.get_char(0) == '"' && literal.get_char(n - 1) == '"'
}

impl LiteralKind {
    /// Whether `literal` is one of the literals this kind claims.
    pub fn accepts(&self, literal: &str) -> (ok: bool)
        ensures
            ok == kind_accepts(*self, literal@),
    {
        match self {
            LiteralKind::Integer => valid_i64_literal(literal),
            LiteralKind::Quoted => valid_str_literal(literal),
        }
    }
}

/// No text is both an integer literal and a string literal: of the native
/// kinds at most one claims any given token.
pub proof fn lemma_literal_kinds_exclusive(s: Seq<char>)
    ensures
        !(is_i64_literal(s) && is_str_literal(s)),
{
    if is_i64_literal(s) && is_str_literal(s) {
        let last = s.len() - 1;
        if s[0] == '-' || s[0] == '+' {
            let run = s.subrange(1, s.len() as int);
            assert(is_digit(run[last - 1]));
            assert(run[last - 1] == s[last]);
        } else {
            assert(is_digit(s[0]));
        }
    }
}

/// A native type: its name, its size in bytes and the literals it claims.
/// Two types are the same type when they have the same name.
#[derive(Debug)]
pub struct Type {
    pub name: String,
    pub size: usize,
    pub kind: LiteralKind,
}

impl Type {
    pub fn new(name: String, size: usize, kind: LiteralKind) -> (t: Self)
        ensures
            t.name == name,
            t.size == size,
            t.kind == kind,
    {
        Self { name, size, kind }
    }

    /// Name-based equality, as the language defines it for types.
    pub open spec fn same_as(&self, other: &Type) -> bool {
        self.name@ == other.name@
    }

    /// Whether this type claims a token with the text `s` as one of its literals.
    pub open spec fn claims(&self, s: Seq<char>) -> bool {
        kind_accepts(self.kind, s)
    }
}

impl Clone for Type {
    fn clone(&self) -> (t: Self)
        ensures
            t == *self,
    {
        Type { name: self.name.clone(), size: self.size, kind: self.kind }
    }
}

impl PartialEq for Type {
    fn eq(&self, other: &Self) -> (same: bool) {
        self.name == other.name
    }
}

impl vstd::std_specs::cmp::PartialEqSpecImpl for Type {
    open spec fn obeys_eq_spec() -> bool {
        true
    }

    open spec fn eq_spec(&self, other: &Self) -> bool {
        self.name@ == other.name@
    }
}

/// The first type at or after index `from` that claims the text `s`.
pub open spec fn literal_type_from(types: Seq<Type>, s: Seq<char>, from: int) -> Option<Type>
    decreases types.len() - from,
{
    if from < 0 || from >= types.len() {
        None
    } else if types[from].claims(s) {
        Some(types[from])
    } else {
        literal_type_from(types, s, from + 1)
    }
}

/// The first registered type that claims the text `s` as a literal.
pub open spec fn literal_type(types: Seq<Type>, s: Seq<char>) -> Option<Type> {
    literal_type_from(types, s, 0)
}

/// The first type at or after index `from` whose name is `name`.
pub open spec fn type_named_from(types: Seq<Type>, name: Seq<char>, from: int) -> Option<Type>
    decreases types.len() - from,
{
    if from < 0 || from >= types.len() {
        None
    } else if types[from].name@ == name {
        Some(types[from])
    } else {
        type_named_from(types, name, from + 1)
    }
}

/// The registered type called `name`.
pub open spec fn type_named(types: Seq<Type>, name: Seq<char>) -> Option<Type> {
    type_named_from(types, name, 0)
}

/// What a registry of types must be: no two of its types share a name, so
/// that a name stands for one type.
pub open spec fn unique_type_names(types: Seq<Type>) -> bool {
    forall|i: int, j: int|
        0 <= i < j < types.len() ==> (#[trigger] types[i]).name@ != (#[trigger] types[j]).name@
}

/// In a registry a name stands for the one type that bears it.
pub proof fn lemma_type_named_unique(types: Seq<Type>, i: int, from: int)
    requires
        unique_type_names(types),
        0 <= from <= i < types.len(),
    ensures
        type_named_from(types, types[i].name@, from) == Some(types[i]),
    decreases i - from,
{
    if from < i {
        lemma_type_named_unique(types, i, from + 1);
    }
}

/// The registry the language starts with: `i64` and `str`, eight bytes each.
pub open spec fn is_native_registry(types: Seq<Type>) -> bool {
    &&& types.len() == 2
    &&& types[0].name@ == "i64"@
    &&& types[0].size == 8
    &&& types[0].kind == LiteralKind::Integer
    &&& types[1].name@ == "str"@
    &&& types[1].size == 8
    &&& types[1].kind == LiteralKind::Quoted
}

/// The types the language starts with, in the order of their registration.
pub fn compile_native_types() -> (types: Vec<Type>)
    ensures
        is_native_registry(types@),
        unique_type_names(types@),
{
    let mut types: Vec<Type> = Vec::new();
    types.push(Type::new("i64".to_owned(), 8, LiteralKind::Integer));
    types.push(Type::new("str".to_owned(), 8, LiteralKind::Quoted));
    proof {
        lemma_native_registry_unique_names(types@);
    }
    types
}

/// The first registered type that claims `literal`, if any does.
pub fn get_literal_type<'a>(types: &'a Vec<Type>, literal: &str) -> (found: Option<&'a Type>)
    ensures
        found.is_some() == literal_type(types@, literal@).is_some(),
        found matches Some(t) ==> literal_type(types@, literal@) == Some(*t),
{
    let mut i: usize = 0;
    while i < types.len()
        invariant
            i <= types.len(),
            literal_type_from(types@, literal@, i as int) == literal_type(types@, literal@),
        decreases types.len() - i,
    {
        if types[i].kind.accepts(literal) {
            return Some(&types[i]);
        }
        i = i + 1;
    }
    None
}

/// The registered type called `name`, if there is one.
pub fn find_type<'a>(types: &'a Vec<Type>, name: &String) -> (found: Option<&'a Type>)
    ensures
        found.is_some() == type_named(types@, name@).is_some(),
        found matches Some(t) ==> type_named(types@, name@) == Some(*t),
{
    let mut i: usize = 0;
    while i < types.len()
        invariant
            i <= types.len(),
            type_named_from(types@, name@, i as int) == type_named(types@, name@),
        decreases types.len() - i,
    {
        if types[i].name == *name {
            return Some(&types[i]);
        }
        i = i + 1;
    }
    None
}

/// The two native types differ in name, so the registry the language
/// starts with is a registry.
pub proof fn lemma_native_registry_unique_names(types: Seq<Type>)
    requires
        is_native_registry(types),
    ensures
        unique_type_names(types),
{
    reveal_strlit("i64");
    reveal_strlit("str");
    assert("i64"@[0] != "str"@[0]);
}

/// What `literal_type` finds is a registered type that claims the text, and
/// no type before it does; it finds nothing only when no type claims the text.
pub proof fn lemma_literal_type_is_first(types: Seq<Type>, s: Seq<char>, from: int)
    requires
        0 <= from <= types.len(),
    ensures
        match literal_type_from(types, s, from) {
            Some(t) => exists|i: int|
                from <= i < types.len() && types[i] == t && #[trigger] types[i].claims(s) && forall|
                    j: int,
                | from <= j < i ==> !(#[trigger] types[j]).claims(s),
            None => forall|j: int| from <= j < types.len() ==> !(#[trigger] types[j]).claims(s),
        },
    decreases types.len() - from,
{
    if from < types.len() && !types[from].claims(s) {
        lemma_literal_type_is_first(types, s, from + 1);
        match literal_type_from(types, s, from + 1) {
            Some(t) => {
                let i = choose|i: int|
                    from + 1 <= i < types.len() && types[i] == t && #[trigger] types[i].claims(s)
                        && forall|j: int| from + 1 <= j < i ==> !(#[trigger] types[j]).claims(s);
                assert(forall|j: int| from <= j < i ==> !(#[trigger] types[j]).claims(s));
            },
            None => {},
        }
    }
}

/// In the native registry exactly one type claims any literal: the integer
/// type claims the integer literals, the string type the quoted ones, and
/// `literal_type` answers with that type.
pub proof fn lemma_native_literal_unique(types: Seq<Type>, s: Seq<char>)
    requires
        is_native_registry(types),
    ensures
        !(types[0].claims(s) && types[1].claims(s)),
        types[0].claims(s) ==> literal_type(types, s) == Some(types[0]),
        types[1].claims(s) ==> literal_type(types, s) == Some(types[1]),
        !types[0].claims(s) && !types[1].claims(s) ==> literal_type(types, s).is_none(),
{
    lemma_literal_kinds_exclusive(s);
    reveal_with_fuel(literal_type_from, 3);
}

} // verus!
