//! The built-in library: which modules exist and what they hold, how an
//! import path is resolved, and the parts of the `crypto` and `random` modules
//! that compute on plain values.
use vstd::prelude::*;
use vstd::string::StringSliceAdditionalSpecFns;
use crate::text::{digit_char, push_char, push_str, str_eq};
use crate::vm::methods::{ends_with, occurs_at};

verus! {

/// A function of a built-in module.
#[derive(Debug, Clone, Copy, PartialEq, Eq, Structural)]
pub enum StdlibFn {
    OsName,
    OsEnv,
    OsCmd,
    OsCpu,
    FsRead,
    FsWrite,
    FsAdd,
    FsExists,
    FsInfo,
    JsonToObj,
    JsonToTxt,
    RandomRange,
    RandomPick,
    RandomString,
    RandomBool,
    CryptoMd5,
    CryptoSha256,
    CryptoBase64Enc,
    CryptoBase64Dec,
    NetGet,
    NetPost,
    NetPing,
    NetIp,
}

/// The module a built-in function belongs to.
pub open spec fn module_of(f: StdlibFn) -> Seq<char> {
    match f {
        StdlibFn::OsName | StdlibFn::OsEnv | StdlibFn::OsCmd | StdlibFn::OsCpu => "os"@,
        StdlibFn::FsRead | StdlibFn::FsWrite | StdlibFn::FsAdd | StdlibFn::FsExists
        | StdlibFn::FsInfo => "fs"@,
        StdlibFn::JsonToObj | StdlibFn::JsonToTxt => "json"@,
        StdlibFn::RandomRange | StdlibFn::RandomPick | StdlibFn::RandomString
        | StdlibFn::RandomBool => "random"@,
        StdlibFn::CryptoMd5 | StdlibFn::CryptoSha256 | StdlibFn::CryptoBase64Enc
        | StdlibFn::CryptoBase64Dec => "crypto"@,
        StdlibFn::NetGet | StdlibFn::NetPost | StdlibFn::NetPing | StdlibFn::NetIp => "net"@,
    }
}

/// The key under which a built-in function stands in its module.
pub open spec fn key_of(f: StdlibFn) -> Seq<char> {
    match f {
        StdlibFn::OsName => "name"@,
        StdlibFn::OsEnv => "env"@,
        StdlibFn::OsCmd => "cmd"@,
        StdlibFn::OsCpu => "cpu"@,
        StdlibFn::FsRead => "read"@,
        StdlibFn::FsWrite => "write"@,
        StdlibFn::FsAdd => "add"@,
        StdlibFn::FsExists => "exists"@,
        StdlibFn::FsInfo => "info"@,
        StdlibFn::JsonToObj => "to_obj"@,
        StdlibFn::JsonToTxt => "to_txt"@,
        StdlibFn::RandomRange => "range"@,
        StdlibFn::RandomPick => "pick"@,
        StdlibFn::RandomString => "string"@,
        StdlibFn::RandomBool => "bool"@,
        StdlibFn::CryptoMd5 => "md5"@,
        StdlibFn::CryptoSha256 => "sha256"@,
        StdlibFn::CryptoBase64Enc => "base64_enc"@,
        StdlibFn::CryptoBase64Dec => "base64_dec"@,
        StdlibFn::NetGet => "get"@,
        StdlibFn::NetPost => "post"@,
        StdlibFn::NetPing => "ping"@,
        StdlibFn::NetIp => "ip"@,
    }
}

/// The functions of the built-in module `name`, in order; none for a name
/// that is no built-in module.
pub open spec fn module_functions(name: Seq<char>) -> Seq<StdlibFn> {
    if name == "os"@ {
        seq![StdlibFn::OsName, StdlibFn::OsEnv, StdlibFn::OsCmd, StdlibFn::OsCpu]
    } else if name == "fs"@ {
        seq![StdlibFn::FsRead, StdlibFn::FsWrite, StdlibFn::FsAdd, StdlibFn::FsExists, StdlibFn::FsInfo]
    } else if name == "json"@ {
        seq![StdlibFn::JsonToObj, StdlibFn::JsonToTxt]
    } else if name == "random"@ {
        seq![StdlibFn::RandomRange, StdlibFn::RandomPick, StdlibFn::RandomString, StdlibFn::RandomBool]
    } else if name == "crypto"@ {
        seq![
            StdlibFn::CryptoMd5,
            StdlibFn::CryptoSha256,
            StdlibFn::CryptoBase64Enc,
            StdlibFn::CryptoBase64Dec,
        ]
    } else if name == "net"@ {
        seq![StdlibFn::NetGet, StdlibFn::NetPost, StdlibFn::NetPing, StdlibFn::NetIp]
    } else {
        seq![]
    }
}

/// Whether `name` is one of the built-in modules.
pub open spec fn is_module_name(name: Seq<char>) -> bool {
    name == "net"@ || name == "fs"@ || name == "json"@ || name == "random"@ || name == "os"@
        || name == "crypto"@
}

/// A name is a built-in module exactly when that module lists functions, and
/// the functions a module lists are exactly those that belong to it: every
/// built-in function stands in the list of its own module, and every listed
/// function names the module it is listed under.
pub proof fn law_modules_are_what_they_list(name: Seq<char>, f: StdlibFn)
    ensures
        is_module_name(name) <==> module_functions(name).len() > 0,
        is_module_name(module_of(f)),
        module_functions(module_of(f)).contains(f),
        module_functions(name).contains(f) ==> module_of(f) == name,
{
    reveal_strlit("os");
    reveal_strlit("fs");
    reveal_strlit("json");
    reveal_strlit("random");
    reveal_strlit("crypto");
    reveal_strlit("net");
    // The module names differ in their first letters.
    assert("os"@[0] == 'o' && "fs"@[0] == 'f' && "json"@[0] == 'j' && "random"@[0] == 'r'
        && "crypto"@[0] == 'c' && "net"@[0] == 'n');
    let m = module_functions(module_of(f));
    match f {
        StdlibFn::OsName => assert(m[0] == f),
        StdlibFn::OsEnv => assert(m[1] == f),
        StdlibFn::OsCmd => assert(m[2] == f),
        StdlibFn::OsCpu => assert(m[3] == f),
        StdlibFn::FsRead => assert(m[0] == f),
        StdlibFn::FsWrite => assert(m[1] == f),
        StdlibFn::FsAdd => assert(m[2] == f),
        StdlibFn::FsExists => assert(m[3] == f),
        StdlibFn::FsInfo => assert(m[4] == f),
        StdlibFn::JsonToObj => assert(m[0] == f),
        StdlibFn::JsonToTxt => assert(m[1] == f),
        StdlibFn::RandomRange => assert(m[0] == f),
        StdlibFn::RandomPick => assert(m[1] == f),
        StdlibFn::RandomString => assert(m[2] == f),
        StdlibFn::RandomBool => assert(m[3] == f),
        StdlibFn::CryptoMd5 => assert(m[0] == f),
        StdlibFn::CryptoSha256 => assert(m[1] == f),
        StdlibFn::CryptoBase64Enc => assert(m[2] == f),
        StdlibFn::CryptoBase64Dec => assert(m[3] == f),
        StdlibFn::NetGet => assert(m[0] == f),
        StdlibFn::NetPost => assert(m[1] == f),
        StdlibFn::NetPing => assert(m[2] == f),
        StdlibFn::NetIp => assert(m[3] == f),
    }
    if module_functions(name).contains(f) {
        let i = choose|i: int| 0 <= i < module_functions(name).len() && module_functions(name)[i] == f;
        assert(module_functions(name)[i] == f);
    }
}

impl StdlibFn {
    /// The module this function belongs to.
    pub fn module(&self) -> (r: &'static str)
        ensures
            r@ == module_of(*self),
    {
        match self {
            StdlibFn::OsName | StdlibFn::OsEnv | StdlibFn::OsCmd | StdlibFn::OsCpu => "os",
            StdlibFn::FsRead | StdlibFn::FsWrite | StdlibFn::FsAdd | StdlibFn::FsExists
            | StdlibFn::FsInfo => "fs",
            StdlibFn::JsonToObj | StdlibFn::JsonToTxt => "json",
            StdlibFn::RandomRange | StdlibFn::RandomPick | StdlibFn::RandomString
            | StdlibFn::RandomBool => "random",
            StdlibFn::CryptoMd5 | StdlibFn::CryptoSha256 | StdlibFn::CryptoBase64Enc
            | StdlibFn::CryptoBase64Dec => "crypto",
            StdlibFn::NetGet | StdlibFn::NetPost | StdlibFn::NetPing | StdlibFn::NetIp => "net",
        }
    }

    /// The key of this function in its module.
    pub fn key(&self) -> (r: &'static str)
        ensures
            r@ == key_of(*self),
    {
        match self {
            StdlibFn::OsName => "name",
            StdlibFn::OsEnv => "env",
            StdlibFn::OsCmd => "cmd",
            StdlibFn::OsCpu => "cpu",
            StdlibFn::FsRead => "read",
            StdlibFn::FsWrite => "write",
            StdlibFn::FsAdd => "add",
            StdlibFn::FsExists => "exists",
            StdlibFn::FsInfo => "info",
            StdlibFn::JsonToObj => "to_obj",
            StdlibFn::JsonToTxt => "to_txt",
            StdlibFn::RandomRange => "range",
            StdlibFn::RandomPick => "pick",
            StdlibFn::RandomString => "string",
            StdlibFn::RandomBool => "bool",
            StdlibFn::CryptoMd5 => "md5",
            StdlibFn::CryptoSha256 => "sha256",
            StdlibFn::CryptoBase64Enc => "base64_enc",
            StdlibFn::CryptoBase64Dec => "base64_dec",
            StdlibFn::NetGet => "get",
            StdlibFn::NetPost => "post",
            StdlibFn::NetPing => "ping",
            StdlibFn::NetIp => "ip",
        }
    }

    /// The name a function value of this built-in shows: `module.key`.
    pub fn qualified_name(&self) -> (r: String)
        ensures
            r@ == module_of(*self) + seq!['.'] + key_of(*self),
    {
        let mut s = String::new();
        push_str(&mut s, self.module());
        push_char(&mut s, '.');
        push_str(&mut s, self.key());
        s
    }
}

/// Whether `name` is one of the built-in modules `net`, `fs`, `json`,
/// `random`, `os` and `crypto`.
pub fn is_stdlib_module(name: &str) -> (r: bool)
    ensures
        r == is_module_name(name@),
{
    str_eq(name, "net") || str_eq(name, "fs") || str_eq(name, "json") || str_eq(name, "random")
        || str_eq(name, "os") || str_eq(name, "crypto")
}

/// The functions of the built-in module `name`, in the order the module
/// lists them (none where `name` is no built-in module).
pub fn create_stdlib_module(name: &str) -> (r: Vec<StdlibFn>)
    ensures
        r@ == module_functions(name@),
{
    if str_eq(name, "os") {
        vec![StdlibFn::OsName, StdlibFn::OsEnv, StdlibFn::OsCmd, StdlibFn::OsCpu]
    } else if str_eq(name, "fs") {
        vec![StdlibFn::FsRead, StdlibFn::FsWrite, StdlibFn::FsAdd, StdlibFn::FsExists, StdlibFn::FsInfo]
    } else if str_eq(name, "json") {
        vec![StdlibFn::JsonToObj, StdlibFn::JsonToTxt]
    } else if str_eq(name, "random") {
        vec![StdlibFn::RandomRange, StdlibFn::RandomPick, StdlibFn::RandomString, StdlibFn::RandomBool]
    } else if str_eq(name, "crypto") {
        vec![
            StdlibFn::CryptoMd5,
            StdlibFn::CryptoSha256,
            StdlibFn::CryptoBase64Enc,
            StdlibFn::CryptoBase64Dec,
        ]
    } else if str_eq(name, "net") {
        vec![StdlibFn::NetGet, StdlibFn::NetPost, StdlibFn::NetPing, StdlibFn::NetIp]
    } else {
        vec![]
    }
}

/// What an `import` path names.
#[derive(Debug, Clone, Copy, PartialEq, Eq, Structural)]
pub enum ImportTarget {
    /// A built-in module.
    Builtin,
    /// A script file (its path ends in `.erx`).
    Script,
    /// Nothing known.
    Unknown,
}


/// What the path of an `import` names: a built-in module, a script file, or
/// nothing known.
pub fn classify_import(path: &str) -> (r: ImportTarget)
    ensures
        r == (if is_module_name(path@) {
            ImportTarget::Builtin
        } else if occurs_at(path@, ".erx"@, path@.len() - ".erx"@.len()) {
            ImportTarget::Script
        } else {
            ImportTarget::Unknown
        }),
{
    if is_stdlib_module(path) {
        ImportTarget::Builtin
    } else if ends_with(path, ".erx") {
        ImportTarget::Script
    } else {
        ImportTarget::Unknown
    }
}

// ── crypto ──────────────────────────────────────────────────────────────

/// The MD5 digest of `data`.
pub uninterp spec fn md5_of(data: Seq<u8>) -> Seq<u8>;

/// The SHA-256 digest of `data`.
pub uninterp spec fn sha256_of(data: Seq<u8>) -> Seq<u8>;

/// The digit for `n < 64` in the standard base64 alphabet: `A`-`Z`, `a`-`z`,
/// `0`-`9`, `+`, `/`.
pub open spec fn base64_digit(n: int) -> char {
    if n < 26 {
        (65 + n) as char
    } else if n < 52 {
        (97 + n - 26) as char
    } else if n < 62 {
        (48 + n - 52) as char
    } else if n == 62 {
        '+'
    } else {
        '/'
    }
}

/// The standard (padded) base64 encoding of `data`: each 3 bytes become 4
/// digits of 6 bits each; a last group of 1 or 2 bytes is padded with `=`.
pub open spec fn base64_encoding(data: Seq<u8>) -> Seq<char>
    decreases data.len(),
{
    if data.len() == 0 {
        seq![]
    } else if data.len() == 1 {
        let b0 = data[0] as int;
        seq![base64_digit(b0 / 4), base64_digit((b0 % 4) * 16), '=', '=']
    } else if data.len() == 2 {
        let b0 = data[0] as int;
        let b1 = data[1] as int;
        seq![base64_digit(b0 / 4), base64_digit((b0 % 4) * 16 + b1 / 16), base64_digit((b1 % 16) * 4), '=']
    } else {
        let b0 = data[0] as int;
        let b1 = data[1] as int;
        let b2 = data[2] as int;
        seq![
            base64_digit(b0 / 4),
            base64_digit((b0 % 4) * 16 + b1 / 16),
            base64_digit((b1 % 16) * 4 + b2 / 64),
            base64_digit(b2 % 64),
        ] + base64_encoding(data.subrange(3, data.len() as int))
    }
}

/// Bytes read as characters, one each (as ASCII text is).
pub open spec fn byte_chars(bs: Seq<u8>) -> Seq<char> {
    bs.map_values(|b: u8| b as char)
}

/// The bytes that the standard base64 text `text` decodes to, if it is valid.
pub uninterp spec fn base64_decoding(text: Seq<u8>) -> Option<Seq<u8>>;

/// The text of `bytes` read as UTF-8, each invalid sequence replaced by
/// U+FFFD.
pub uninterp spec fn utf8_lossy(bytes: Seq<u8>) -> Seq<char>;

/// Calls `md5::Md5::digest`: the 16-byte MD5 digest of `data`.
#[verifier::external_body]
fn md5_digest(data: &[u8]) -> (r: Vec<u8>)
    ensures
        r@ == md5_of(data@),
        r@.len() == 16,
{
    <md5::Md5 as md5::Digest>::digest(data).to_vec()
}

/// Calls `sha2::Sha256::digest`: the 32-byte SHA-256 digest of `data`.
#[verifier::external_body]
fn sha256_digest(data: &[u8]) -> (r: Vec<u8>)
    ensures
        r@ == sha256_of(data@),
        r@.len() == 32,
{
    <sha2::Sha256 as sha2::Digest>::digest(data).to_vec()
}

/// Calls `base64::Engine::encode` on the `STANDARD` engine, which pads; the
/// contract states the encoding (`base64_encoding`). It panics where the
/// length of the encoding does not fit in `usize`.
#[verifier::external_body]
fn base64_encode(data: &[u8]) -> (r: String)
    requires
        4 * ((data@.len() + 2) / 3) <= usize::MAX,
    ensures
        r@ == base64_encoding(data@),
{
    base64::Engine::encode(&base64::engine::general_purpose::STANDARD, data)
}

/// Calls `base64::Engine::decode` on the `STANDARD` engine; `None` where it
/// reports an error. That engine requires canonical padding and no trailing
/// bits, so it decodes exactly the texts that are the encoding of some bytes,
/// to those bytes; the contract states this.
#[verifier::external_body]
fn base64_decode(text: &[u8]) -> (r: Option<Vec<u8>>)
    ensures
        match r {
            Some(v) => base64_decoding(text@) == Some(v@),
            None => base64_decoding(text@) is None,
        },
        r matches Some(v) ==> base64_encoding(v@) == byte_chars(text@),
        r is None ==> forall|b: Seq<u8>| #[trigger] base64_encoding(b) != byte_chars(text@),
{
    match base64::Engine::decode(&base64::engine::general_purpose::STANDARD, text) {
        Ok(v) => Some(v),
        Err(_) => None,
    }
}

/// Calls `String::from_utf8_lossy` and takes the text as an owned `String`.
#[verifier::external_body]
fn text_from_utf8_lossy(bytes: &[u8]) -> (r: String)
    ensures
        r@ == utf8_lossy(bytes@),
{
    String::from_utf8_lossy(bytes).to_string()
}

/// The lowercase hexadecimal digit for `n < 16`.
pub open spec fn hex_digit(n: nat) -> char {
    if n < 10 {
        digit_char(n)
    } else {
        ((n - 10) + 97) as char
    }
}

/// Two lowercase hexadecimal digits per byte, as `{:02x}` writes them.
pub open spec fn hex_text(bytes: Seq<u8>) -> Seq<char>
    decreases bytes.len(),
{
    if bytes.len() == 0 {
        seq![]
    } else {
        hex_text(bytes.drop_last()) + seq![
            hex_digit((bytes.last() / 16) as nat),
            hex_digit((bytes.last() % 16) as nat),
        ]
    }
}

fn hex_char(n: u8) -> (c: char)
    requires
        n < 16,
    ensures
        c == hex_digit(n as nat),
{
    match n {
        0 => '0',
        1 => '1',
        2 => '2',
        3 => '3',
        4 => '4',
        5 => '5',
        6 => '6',
        7 => '7',
        8 => '8',
        9 => '9',
        10 => 'a',
        11 => 'b',
        12 => 'c',
        13 => 'd',
        14 => 'e',
        _ => 'f',
    }
}

/// The bytes in lowercase hexadecimal, two digits each.
pub fn hex_lower(bytes: &Vec<u8>) -> (r: String)
    ensures
        r@ == hex_text(bytes@),
{
    let mut s = String::new();
    let mut i: usize = 0;
    while i < bytes.len()
        invariant
            i <= bytes@.len(),
            s@ == hex_text(bytes@.take(i as int)),
        decreases bytes@.len() - i,
    {
        let b = bytes[i];
        push_char(&mut s, hex_char(b / 16));
        push_char(&mut s, hex_char(b % 16));
        proof {
            assert(bytes@.take(i + 1).drop_last() =~= bytes@.take(i as int));
            assert(bytes@.take(i + 1).last() == b);
        }
        i = i + 1;
    }
    assert(bytes@.take(bytes@.len() as int) =~= bytes@);
    s
}

/// The MD5 digest of the UTF-8 bytes of `text`, in lowercase hexadecimal.
pub fn crypto_md5(text: &str) -> (r: String)
    ensures
        r@ == hex_text(md5_of(text.spec_bytes())),
        r@.len() == 32,
{
    let digest = md5_digest(text.as_bytes());
    proof {
        lemma_hex_len(digest@);
    }
    hex_lower(&digest)
}

/// The SHA-256 digest of the UTF-8 bytes of `text`, in lowercase hexadecimal.
pub fn crypto_sha256(text: &str) -> (r: String)
    ensures
        r@ == hex_text(sha256_of(text.spec_bytes())),
        r@.len() == 64,
{
    let digest = sha256_digest(text.as_bytes());
    proof {
        lemma_hex_len(digest@);
    }
    hex_lower(&digest)
}

/// The hexadecimal text has two digits per byte.
pub proof fn lemma_hex_len(bytes: Seq<u8>)
    ensures
        hex_text(bytes).len() == 2 * bytes.len(),
    decreases bytes.len(),
{
    if bytes.len() > 0 {
        lemma_hex_len(bytes.drop_last());
    }
}

/// The standard base64 encoding of the UTF-8 bytes of `text`.
pub fn crypto_base64_enc(text: &str) -> (r: String)
    requires
        4 * ((text.spec_bytes().len() + 2) / 3) <= usize::MAX,
    ensures
        r@ == base64_encoding(text.spec_bytes()),
{
    base64_encode(text.as_bytes())
}

/// The text that the standard base64 `text` decodes to (invalid UTF-8
/// replaced), or `None` where `text` is no valid base64.
pub fn crypto_base64_dec(text: &str) -> (r: Option<String>)
    ensures
        match base64_decoding(text.spec_bytes()) {
            Some(bytes) => r is Some && r->0@ == utf8_lossy(bytes),
            None => r is None,
        },
{
    match base64_decode(text.as_bytes()) {
        Some(bytes) => Some(text_from_utf8_lossy(bytes.as_slice())),
        None => None,
    }
}

// ── random ──────────────────────────────────────────────────────────────

/// Calls `rand::random_range` on `min..=max`: some integer in that range. It
/// panics on an empty range.
#[verifier::external_body]
fn random_in_inclusive(min: i64, max: i64) -> (r: i64)
    requires
        min <= max,
    ensures
        min <= r <= max,
{
    rand::random_range(min..=max)
}

/// Calls `rand::random_range` on `0..len`: some index below `len`. It panics
/// on an empty range.
#[verifier::external_body]
fn random_below(len: usize) -> (r: usize)
    requires
        len > 0,
    ensures
        r < len,
{
    rand::random_range(0..len)
}

/// Calls `rand::random_range` on `0u8..36u8`: some value below 36.
#[verifier::external_body]
fn random_below_36() -> (r: u8)
    ensures
        r < 36,
{
    rand::random_range(0u8..36u8)
}

/// Some integer from `min` to `max`, both included.
pub fn random_range(min: i64, max: i64) -> (r: i64)
    requires
        min <= max,
    ensures
        min <= r <= max,
{
    random_in_inclusive(min, max)
}

/// Some index into a collection of `len` items, or `None` for an empty one.
pub fn random_pick(len: usize) -> (r: Option<usize>)
    ensures
        len == 0 ==> r is None,
        len > 0 ==> (r matches Some(i) && i < len),
{
    if len == 0 {
        None
    } else {
        Some(random_below(len))
    }
}

/// The character for `k < 36` among `0`-`9` then `a`-`z`.
pub open spec fn alnum_char(k: nat) -> char {
    if k < 10 {
        digit_char(k)
    } else {
        ((k - 10) + 97) as char
    }
}

/// The character for `idx < 36` among `0`-`9` then `a`-`z`.
pub fn alnum_from_index(idx: u8) -> (c: char)
    requires
        idx < 36,
    ensures
        c == alnum_char(idx as nat),
{
    if idx < 10 {
        hex_char(idx)
    } else {
        ((97u8 + (idx - 10)) as char)
    }
}

/// Whether `c` is a digit or a lowercase ASCII letter.
pub open spec fn is_alnum_lower(c: char) -> bool {
    exists|k: nat| k < 36 && c == alnum_char(k)
}

/// A string of `len` characters, each some digit or lowercase ASCII letter.
pub fn random_string(len: usize) -> (r: String)
    ensures
        r@.len() == len,
        forall|i: int| 0 <= i < len ==> is_alnum_lower(#[trigger] r@[i]),
{
    let mut s = String::new();
    let mut i: usize = 0;
    while i < len
        invariant
            i <= len,
            s@.len() == i,
            forall|j: int| 0 <= j < i ==> is_alnum_lower(#[trigger] s@[j]),
        decreases len - i,
    {
        let idx = random_below_36();
        let c = alnum_from_index(idx);
        let ghost before = s@;
        push_char(&mut s, c);
        proof {
            assert forall|j: int| 0 <= j < i + 1 implies is_alnum_lower(#[trigger] s@[j]) by {
                if j < i {
                    assert(s@[j] == before[j]);
                } else {
                    assert(s@[j] == alnum_char(idx as nat));
                    assert(idx < 36);
                }
            }
        }
        i = i + 1;
    }
    s
}

} // verus!
