//! Methods on strings, numbers and booleans, and the type names values show.
use vstd::prelude::*;
use vstd::string::StringSliceAdditionalSpecFns;
use crate::text::{is_whitespace, push_char, push_str, spec_is_whitespace, str_eq, string_from_range, to_chars};

verus! {

/// The kind of a runtime value, as `typeof` and method errors name it.
#[derive(Debug, Clone, Copy, PartialEq, Eq, Structural)]
pub enum ValueKind {
    Number,
    String,
    Boolean,
    Array,
    Object,
    Module,
    Future,
    Function,
    Null,
}

/// The name of a kind of value.
pub open spec fn kind_name(k: ValueKind) -> Seq<char> {
    match k {
        ValueKind::Number => "number"@,
        ValueKind::String => "string"@,
        ValueKind::Boolean => "boolean"@,
        ValueKind::Array => "array"@,
        ValueKind::Object => "object"@,
        ValueKind::Module => "module"@,
        ValueKind::Future => "future"@,
        ValueKind::Function => "function"@,
        ValueKind::Null => "null"@,
    }
}

impl ValueKind {
    /// The name of this kind of value (`number`, `string`, ...).
    pub fn name(&self) -> (r: &'static str)
        ensures
            r@ == kind_name(*self),
    {
        match self {
            ValueKind::Number => "number",
            ValueKind::String => "string",
            ValueKind::Boolean => "boolean",
            ValueKind::Array => "array",
            ValueKind::Object => "object",
            ValueKind::Module => "module",
            ValueKind::Future => "future",
            ValueKind::Function => "function",
            ValueKind::Null => "null",
        }
    }
}

/// What a method returns.
#[derive(Debug, Clone, PartialEq)]
pub enum MethodValue {
    /// A count (the runtime shows it as a number).
    Count(usize),
    Text(String),
    Flag(bool),
    /// A list of strings (the runtime shows it as an array).
    Texts(Vec<String>),
}

/// `{kind} does not have method '{method}'`.
pub open spec fn missing_method(kind: Seq<char>, method: Seq<char>) -> Seq<char> {
    kind + " does not have method '"@ + method + seq!['\'']
}

/// The message for a method that a value does not have.
pub fn missing_method_message(kind: &str, method: &str) -> (r: String)
    ensures
        r@ == missing_method(kind@, method@),
{
    let mut s = String::new();
    push_str(&mut s, kind);
    push_str(&mut s, " does not have method '");
    push_str(&mut s, method);
    push_char(&mut s, '\'');
    s
}

/// `s` with the whitespace at both ends removed.
pub open spec fn trimmed(s: Seq<char>) -> Seq<char>
    decreases s.len(),
{
    if s.len() == 0 {
        s
    } else if spec_is_whitespace(s[0]) {
        trimmed(s.drop_first())
    } else if spec_is_whitespace(s.last()) {
        trimmed(s.drop_last())
    } else {
        s
    }
}

/// Whether `t` occurs in `s` at index `i`.
pub open spec fn occurs_at(s: Seq<char>, t: Seq<char>, i: int) -> bool {
    0 <= i && i + t.len() <= s.len() && s.subrange(i, i + t.len()) == t
}

/// Whether `t` occurs anywhere in `s`.
pub open spec fn occurs_in(s: Seq<char>, t: Seq<char>) -> bool {
    exists|i: int| occurs_at(s, t, i)
}

/// The characters of `s` in upper case, as `str::to_uppercase` maps them.
pub uninterp spec fn uppercase_of(s: Seq<char>) -> Seq<char>;

/// The characters of `s` in lower case, as `str::to_lowercase` maps them.
pub uninterp spec fn lowercase_of(s: Seq<char>) -> Seq<char>;

/// Splitting the rest `s` of a text at a non-empty `sep`, where `piece` has
/// been read since the last separator: occurrences are taken from the left,
/// without overlap.
pub open spec fn split_rest(s: Seq<char>, sep: Seq<char>, piece: Seq<char>) -> Seq<Seq<char>>
    decreases s.len(),
{
    if s.len() == 0 {
        seq![piece]
    } else if sep.len() > 0 && occurs_at(s, sep, 0) {
        seq![piece] + split_rest(s.subrange(sep.len() as int, s.len() as int), sep, seq![])
    } else {
        split_rest(s.drop_first(), sep, piece.push(s[0]))
    }
}

/// The pieces of `s` between the occurrences of `sep`, as `str::split` with
/// a string pattern yields them: for an empty `sep`, an empty piece, each
/// character, and an empty piece.
pub open spec fn split_of(s: Seq<char>, sep: Seq<char>) -> Seq<Seq<char>> {
    if sep.len() == 0 {
        seq![seq![]] + s.map_values(|c: char| seq![c]) + seq![seq![]]
    } else {
        split_rest(s, sep, seq![])
    }
}

/// `s` with `to` before each character and at the end.
pub open spec fn interleave(s: Seq<char>, to: Seq<char>) -> Seq<char>
    decreases s.len(),
{
    if s.len() == 0 {
        to
    } else {
        to + seq![s[0]] + interleave(s.drop_first(), to)
    }
}

/// `s` with every occurrence of `from` replaced by `to`, as `str::replace`
/// does it: occurrences taken from the left without overlap; an empty `from`
/// matches before each character and at the end.
pub open spec fn replaced_of(s: Seq<char>, from: Seq<char>, to: Seq<char>) -> Seq<char>
    decreases s.len(),
{
    if from.len() == 0 {
        interleave(s, to)
    } else if s.len() == 0 {
        s
    } else if occurs_at(s, from, 0) {
        to + replaced_of(s.subrange(from.len() as int, s.len() as int), from, to)
    } else {
        seq![s[0]] + replaced_of(s.drop_first(), from, to)
    }
}

/// Calls `str::to_uppercase`.
#[verifier::external_body]
fn to_uppercase(s: &str) -> (r: String)
    ensures
        r@ == uppercase_of(s@),
{
    s.to_uppercase()
}

/// Calls `str::to_lowercase`.
#[verifier::external_body]
fn to_lowercase(s: &str) -> (r: String)
    ensures
        r@ == lowercase_of(s@),
{
    s.to_lowercase()
}

/// The pieces of `s` between the occurrences of `sep`, as `str::split` with
/// a string pattern yields them (see `split_of`).
fn split(s: &str, sep: &str) -> (r: Vec<String>)
    ensures
        r@.map_values(|p: String| p@) == split_of(s@, sep@),
{
    let a = to_chars(s);
    let b = to_chars(sep);
    let mut done: Vec<String> = Vec::new();
    if b.len() == 0 {
        done.push(String::new());
        let mut i: usize = 0;
        while i < a.len()
            invariant
                i <= a@.len(),
                a@ == s@,
                done@.map_values(|p: String| p@) == seq![Seq::<char>::empty()]
                    + a@.subrange(0, i as int).map_values(|c: char| seq![c]),
            decreases a@.len() - i,
        {
            let mut piece = String::new();
            push_char(&mut piece, a[i]);
            let ghost before = done@;
            done.push(piece);
            proof {
                lemma_map_push_s(before, piece);
                assert(a@.subrange(0, i + 1).map_values(|c: char| seq![c])
                    =~= a@.subrange(0, i as int).map_values(|c: char| seq![c]).push(seq![a@[i as int]]));
                assert(piece@ =~= seq![a@[i as int]]);
            }
            i = i + 1;
        }
        let ghost before = done@;
        let last = String::new();
        done.push(last);
        proof {
            lemma_map_push_s(before, last);
            assert(a@.subrange(0, a@.len() as int) =~= a@);
        }
        return done;
    }
    let mut cur = String::new();
    let mut i: usize = 0;
    proof {
        assert(a@.subrange(0, a@.len() as int) =~= a@);
        assert(done@.map_values(|p: String| p@) =~= Seq::<Seq<char>>::empty());
        assert(Seq::<Seq<char>>::empty() + split_rest(a@.subrange(0, a@.len() as int), b@, seq![]) =~= split_rest(a@, b@, seq![]));
    }
    while i < a.len()
        invariant
            i <= a@.len(),
            a@ == s@,
            b@ == sep@,
            b@.len() > 0,
            done@.map_values(|p: String| p@) + split_rest(a@.subrange(i as int, a@.len() as int), b@, cur@)
                == split_rest(a@, b@, seq![]),
        decreases a@.len() - i,
    {
        let ghost rest = a@.subrange(i as int, a@.len() as int);
        if b.len() <= a.len() - i && occurs(&a, &b, i) {
            proof {
                assert(occurs_at(rest, b@, 0)) by {
                    assert(rest.subrange(0, b@.len() as int) =~= a@.subrange(i as int, i + b@.len()));
                }
                assert(rest.subrange(b@.len() as int, rest.len() as int) =~= a@.subrange(i + b@.len(), a@.len() as int));
            }
            let ghost before = done@;
            let piece = cur;
            done.push(piece);
            cur = String::new();
            proof {
                lemma_map_push_s(before, piece);
                assert(before.map_values(|p: String| p@) + split_rest(rest, b@, piece@)
                    =~= before.map_values(|p: String| p@).push(piece@)
                        + split_rest(a@.subrange(i + b@.len(), a@.len() as int), b@, seq![]));
            }
            i = i + b.len();
            assert(cur@ =~= Seq::<char>::empty());
        } else {
            proof {
                if occurs_at(rest, b@, 0) {
                    assert(rest.subrange(0, b@.len() as int) =~= a@.subrange(i as int, i + b@.len()));
                }
                assert(rest.drop_first() =~= a@.subrange(i + 1, a@.len() as int));
            }
            let ghost old_cur = cur@;
            push_char(&mut cur, a[i]);
            i = i + 1;
        }
    }
    let ghost before = done@;
    let piece = cur;
    done.push(piece);
    proof {
        lemma_map_push_s(before, piece);
        assert(a@.subrange(a@.len() as int, a@.len() as int) =~= Seq::<char>::empty());
    }
    done
}

proof fn lemma_map_push_s(v: Seq<String>, x: String)
    ensures
        v.push(x).map_values(|p: String| p@) == v.map_values(|p: String| p@).push(x@),
{
    assert(v.push(x).map_values(|p: String| p@) =~= v.map_values(|p: String| p@).push(x@));
}

/// `s` with every occurrence of `from` replaced by `to`, as `str::replace`
/// does it (see `replaced_of`).
fn replace(s: &str, from: &str, to: &str) -> (r: String)
    ensures
        r@ == replaced_of(s@, from@, to@),
{
    let a = to_chars(s);
    let b = to_chars(from);
    let mut out = String::new();
    let mut i: usize = 0;
    if b.len() == 0 {
        proof {
            assert(a@.subrange(0, a@.len() as int) =~= a@);
        }
        while i < a.len()
            invariant
                i <= a@.len(),
                a@ == s@,
                out@ + interleave(a@.subrange(i as int, a@.len() as int), to@) == interleave(a@, to@),
            decreases a@.len() - i,
        {
            let ghost rest = a@.subrange(i as int, a@.len() as int);
            proof {
                assert(rest.drop_first() =~= a@.subrange(i + 1, a@.len() as int));
            }
            let ghost o = out@;
            push_str(&mut out, to);
            push_char(&mut out, a[i]);
            proof {
                assert(o + (to@ + seq![a@[i as int]] + interleave(rest.drop_first(), to@))
                    =~= (o + to@).push(a@[i as int]) + interleave(rest.drop_first(), to@));
            }
            i = i + 1;
        }
        push_str(&mut out, to);
        proof {
            assert(a@.subrange(a@.len() as int, a@.len() as int) =~= Seq::<char>::empty());
        }
        assert(from@ =~= b@);
        return out;
    }
    proof {
        assert(a@.subrange(0, a@.len() as int) =~= a@);
    }
    while i < a.len()
        invariant
            i <= a@.len(),
            a@ == s@,
            b@ == from@,
            b@.len() > 0,
            out@ + replaced_of(a@.subrange(i as int, a@.len() as int), b@, to@) == replaced_of(a@, b@, to@),
        decreases a@.len() - i,
    {
        let ghost rest = a@.subrange(i as int, a@.len() as int);
        let ghost o = out@;
        if b.len() <= a.len() - i && occurs(&a, &b, i) {
            proof {
                assert(rest.subrange(0, b@.len() as int) =~= a@.subrange(i as int, i + b@.len()));
                assert(rest.subrange(b@.len() as int, rest.len() as int) =~= a@.subrange(i + b@.len(), a@.len() as int));
            }
            push_str(&mut out, to);
            proof {
                assert(o + (to@ + replaced_of(a@.subrange(i + b@.len(), a@.len() as int), b@, to@))
                    =~= (o + to@) + replaced_of(a@.subrange(i + b@.len(), a@.len() as int), b@, to@));
            }
            i = i + b.len();
        } else {
            proof {
                if occurs_at(rest, b@, 0) {
                    assert(rest.subrange(0, b@.len() as int) =~= a@.subrange(i as int, i + b@.len()));
                }
                assert(rest.drop_first() =~= a@.subrange(i + 1, a@.len() as int));
                assert(o + (seq![a@[i as int]] + replaced_of(rest.drop_first(), b@, to@))
                    =~= o.push(a@[i as int]) + replaced_of(rest.drop_first(), b@, to@));
            }
            push_char(&mut out, a[i]);
            i = i + 1;
        }
    }
    proof {
        assert(a@.subrange(a@.len() as int, a@.len() as int) =~= Seq::<char>::empty());
        assert(out@ + Seq::<char>::empty() =~= out@);
    }
    out
}

proof fn lemma_trimmed_inner(s: Seq<char>, a: int, b: int)
    requires
        0 <= a <= b <= s.len(),
        forall|i: int| 0 <= i < a ==> spec_is_whitespace(#[trigger] s[i]),
        forall|i: int| b <= i < s.len() ==> spec_is_whitespace(#[trigger] s[i]),
        a < b ==> !spec_is_whitespace(s[a]) && !spec_is_whitespace(s[b - 1]),
    ensures
        trimmed(s) == s.subrange(a, b),
    decreases s.len(),
{
    if s.len() == 0 {
        assert(s.subrange(a, b) =~= s);
    } else if spec_is_whitespace(s[0]) {
        let t = s.drop_first();
        if a == 0 {
            assert(b == 0);
            lemma_trimmed_inner(t, 0, 0);
            assert(t.subrange(0, 0) =~= s.subrange(0, 0));
        } else {
            lemma_trimmed_inner(t, a - 1, b - 1);
            assert(t.subrange(a - 1, b - 1) =~= s.subrange(a, b));
        }
    } else if spec_is_whitespace(s.last()) {
        let t = s.drop_last();
        assert(a == 0);
        if b == s.len() {
            assert(!spec_is_whitespace(s[b - 1]));
        }
        lemma_trimmed_inner(t, a, b);
        assert(t.subrange(a, b) =~= s.subrange(a, b));
    } else {
        assert(a == 0);
        assert(b == s.len());
        assert(s.subrange(a, b) =~= s);
    }
}

/// `s` without leading and trailing whitespace (as `str::trim`).
pub fn trim(s: &str) -> (r: String)
    ensures
        r@ == trimmed(s@),
{
    let chars = to_chars(s);
    let n = chars.len();
    let mut a: usize = 0;
    while a < n && is_whitespace(chars[a])
        invariant
            n == chars@.len(),
            a <= n,
            forall|i: int| 0 <= i < a ==> spec_is_whitespace(#[trigger] chars@[i]),
        decreases n - a,
    {
        a = a + 1;
    }
    let mut b: usize = n;
    while b > a && is_whitespace(chars[b - 1])
        invariant
            n == chars@.len(),
            a <= b <= n,
            forall|i: int| b <= i < n ==> spec_is_whitespace(#[trigger] chars@[i]),
        decreases b - a,
    {
        b = b - 1;
    }
    proof {
        lemma_trimmed_inner(chars@, a as int, b as int);
    }
    string_from_range(&chars, a, b)
}

/// Whether `t` occurs in `s` (as `str::contains` with a string pattern).
pub fn contains(s: &str, t: &str) -> (r: bool)
    ensures
        r == occurs_in(s@, t@),
{
    let a = to_chars(s);
    let b = to_chars(t);
    if b.len() > a.len() {
        assert forall|i: int| !occurs_at(s@, t@, i) by {}
        return false;
    }
    let last = a.len() - b.len();
    let mut i: usize = 0;
    while i <= last
        invariant
            a@ == s@,
            b@ == t@,
            last == a@.len() - b@.len(),
            forall|k: int| 0 <= k < i ==> !occurs_at(s@, t@, k),
        decreases last + 1 - i,
    {
        if occurs(&a, &b, i) {
            return true;
        }
        if i == last {
            assert forall|k: int| !occurs_at(s@, t@, k) by {
                if 0 <= k <= last {
                    assert(k < i + 1);
                }
            }
            return false;
        }
        i = i + 1;
    }
    false
}

fn occurs(a: &Vec<char>, b: &Vec<char>, i: usize) -> (r: bool)
    requires
        i + b@.len() <= a@.len(),
    ensures
        r == occurs_at(a@, b@, i as int),
{
    let alen = a.len();
    let mut j: usize = 0;
    while j < b.len()
        invariant
            alen == a@.len(),
            i + b@.len() <= a@.len(),
            j <= b@.len(),
            forall|k: int| 0 <= k < j ==> a@[i + k] == b@[k],
        decreases b@.len() - j,
    {
        if a[i + j] != b[j] {
            assert(a@.subrange(i as int, i + b@.len())[j as int] != b@[j as int]);
            return false;
        }
        j = j + 1;
    }
    assert(a@.subrange(i as int, i + b@.len()) =~= b@);
    true
}

/// Whether `s` begins with `t` (as `str::starts_with` with a string pattern).
pub fn starts_with(s: &str, t: &str) -> (r: bool)
    ensures
        r == occurs_at(s@, t@, 0),
{
    let a = to_chars(s);
    let b = to_chars(t);
    if b.len() > a.len() {
        return false;
    }
    occurs(&a, &b, 0)
}

/// Whether `s` ends with `t` (as `str::ends_with` with a string pattern).
pub fn ends_with(s: &str, t: &str) -> (r: bool)
    ensures
        r == occurs_at(s@, t@, s@.len() - t@.len()),
{
    let a = to_chars(s);
    let b = to_chars(t);
    if b.len() > a.len() {
        return false;
    }
    occurs(&a, &b, a.len() - b.len())
}

/// The text of the first argument, if it is a string.
pub open spec fn first_text(args: Seq<Option<String>>) -> Option<Seq<char>> {
    if args.len() > 0 && args[0] is Some {
        Some(args[0]->0@)
    } else {
        None
    }
}

/// Calls the string method `method` on `s`. Each argument is given by its
/// text when it is a string, by `None` otherwise.
///
/// `len` counts UTF-8 bytes; `upper`, `lower`, `trim` and `replace` return new
/// text; `split` splits at its first argument (a space without one);
/// `contains`, `starts_with` and `ends_with` test their first argument (false
/// without a string one); `type` is `string`. Any other name is an error.
pub fn dispatch_string_method(s: &str, method: &str, args: &Vec<Option<String>>) -> (r: Result<MethodValue, String>)
    ensures
        method@ == "len"@ ==> r == Ok::<MethodValue, String>(MethodValue::Count(s.spec_bytes().len() as usize)),
        method@ == "upper"@ ==> (r matches Ok(MethodValue::Text(t)) && t@ == uppercase_of(s@)),
        method@ == "lower"@ ==> (r matches Ok(MethodValue::Text(t)) && t@ == lowercase_of(s@)),
        method@ == "type"@ ==> (r matches Ok(MethodValue::Text(t)) && t@ == "string"@),
        method@ == "trim"@ ==> (r matches Ok(MethodValue::Text(t)) && t@ == trimmed(s@)),
        method@ == "split"@ ==> (r matches Ok(MethodValue::Texts(parts)) && parts@.map_values(|p: String| p@)
            == split_of(s@, match first_text(args@) { Some(sep) => sep, None => " "@ })),
        method@ == "contains"@ ==> r == Ok::<MethodValue, String>(MethodValue::Flag(
            match first_text(args@) { Some(t) => occurs_in(s@, t), None => false },
        )),
        method@ == "starts_with"@ ==> r == Ok::<MethodValue, String>(MethodValue::Flag(
            match first_text(args@) { Some(t) => occurs_at(s@, t, 0), None => false },
        )),
        method@ == "ends_with"@ ==> r == Ok::<MethodValue, String>(MethodValue::Flag(
            match first_text(args@) { Some(t) => occurs_at(s@, t, s@.len() - t.len()), None => false },
        )),
        method@ == "replace"@ ==> (r matches Ok(MethodValue::Text(t)) && t@ == (
            if args@.len() >= 2 && args@[0] is Some && args@[1] is Some {
                replaced_of(s@, args@[0]->0@, args@[1]->0@)
            } else {
                s@
            })),
        !(method@ == "len"@ || method@ == "upper"@ || method@ == "lower"@ || method@ == "type"@
            || method@ == "trim"@ || method@ == "split"@ || method@ == "contains"@
            || method@ == "starts_with"@ || method@ == "ends_with"@ || method@ == "replace"@)
            ==> (r matches Err(e) && e@ == missing_method("String"@, method@)),
{
    proof {
        reveal_strlit("len");
        reveal_strlit("upper");
        reveal_strlit("lower");
        reveal_strlit("type");
        reveal_strlit("trim");
        reveal_strlit("split");
        reveal_strlit("contains");
        reveal_strlit("starts_with");
        reveal_strlit("ends_with");
        reveal_strlit("replace");
        assert("len"@.len() == 3 && "len"@[0] == 'l');
        assert("upper"@.len() == 5 && "upper"@[0] == 'u');
        assert("lower"@.len() == 5 && "lower"@[0] == 'l');
        assert("type"@.len() == 4 && "type"@[0] == 't');
        assert("trim"@.len() == 4 && "trim"@[0] == 't');
        assert("split"@.len() == 5 && "split"@[0] == 's');
        assert("contains"@.len() == 8 && "contains"@[0] == 'c');
        assert("starts_with"@.len() == 11 && "starts_with"@[0] == 's');
        assert("ends_with"@.len() == 9 && "ends_with"@[0] == 'e');
        assert("replace"@.len() == 7 && "replace"@[0] == 'r');
        assert("type"@[1] == 'y' && "trim"@[1] == 'r');
    }
    if str_eq(method, "len") {
        Ok(MethodValue::Count(s.len()))
    } else if str_eq(method, "upper") {
        Ok(MethodValue::Text(to_uppercase(s)))
    } else if str_eq(method, "lower") {
        Ok(MethodValue::Text(to_lowercase(s)))
    } else if str_eq(method, "type") {
        Ok(MethodValue::Text("string".to_owned()))
    } else if str_eq(method, "trim") {
        Ok(MethodValue::Text(trim(s)))
    } else if str_eq(method, "split") {
        let parts = if args.len() > 0 {
            match &args[0] {
                Some(sep) => split(s, sep.as_str()),
                None => split(s, " "),
            }
        } else {
            split(s, " ")
        };
        Ok(MethodValue::Texts(parts))
    } else if str_eq(method, "contains") {
        let found = if args.len() > 0 {
            match &args[0] {
                Some(t) => contains(s, t.as_str()),
                None => false,
            }
        } else {
            false
        };
        Ok(MethodValue::Flag(found))
    } else if str_eq(method, "starts_with") {
        let found = if args.len() > 0 {
            match &args[0] {
                Some(t) => starts_with(s, t.as_str()),
                None => false,
            }
        } else {
            false
        };
        Ok(MethodValue::Flag(found))
    } else if str_eq(method, "ends_with") {
        let found = if args.len() > 0 {
            match &args[0] {
                Some(t) => ends_with(s, t.as_str()),
                None => false,
            }
        } else {
            false
        };
        Ok(MethodValue::Flag(found))
    } else if str_eq(method, "replace") {
        if args.len() >= 2 {
            match (&args[0], &args[1]) {
                (Some(from), Some(to)) => {
                    return Ok(MethodValue::Text(replace(s, from.as_str(), to.as_str())));
                },
                _ => {},
            }
        }
        Ok(MethodValue::Text(s.to_owned()))
    } else {
        Err(missing_method_message("String", method))
    }
}

/// Calls the method `method` on a number: only `type` exists.
pub fn dispatch_number_method(method: &str) -> (r: Result<MethodValue, String>)
    ensures
        method@ == "type"@ ==> (r matches Ok(MethodValue::Text(t)) && t@ == "number"@),
        method@ != "type"@ ==> (r matches Err(e) && e@ == missing_method("Number"@, method@)),
{
    if str_eq(method, "type") {
        Ok(MethodValue::Text("number".to_owned()))
    } else {
        Err(missing_method_message("Number", method))
    }
}

/// Calls the method `method` on a boolean: only `type` exists.
pub fn dispatch_bool_method(method: &str) -> (r: Result<MethodValue, String>)
    ensures
        method@ == "type"@ ==> (r matches Ok(MethodValue::Text(t)) && t@ == "boolean"@),
        method@ != "type"@ ==> (r matches Err(e) && e@ == missing_method("Boolean"@, method@)),
{
    if str_eq(method, "type") {
        Ok(MethodValue::Text("boolean".to_owned()))
    } else {
        Err(missing_method_message("Boolean", method))
    }
}

} // verus!
