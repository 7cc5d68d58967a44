//! WebAssembly text emission.
use vstd::prelude::*;
use crate::ir::{IRInstr, IRFunction, IRModule};
use crate::opt::{import_of, imports_in};
use crate::text::{push_char, push_str, push_nat, push_int, nat_text, int_text, chars_of, str_eq};

verus! {

/// The UTF-8 length of a text, in bytes.
pub open spec fn byte_len(s: Seq<char>) -> nat {
    vstd::utf8::encode_utf8(s).len()
}

/// `keys`, with `s` appended unless it is already there.
pub open spec fn add_unique(keys: Seq<Seq<char>>, s: Seq<char>) -> Seq<Seq<char>> {
    if keys.contains(s) {
        keys
    } else {
        keys.push(s)
    }
}

/// The distinct elements of `ss`, in order of first appearance.
pub open spec fn dedup(ss: Seq<Seq<char>>) -> Seq<Seq<char>>
    decreases ss.len(),
{
    if ss.len() == 0 {
        seq![]
    } else {
        add_unique(dedup(ss.drop_last()), ss.last())
    }
}

/// A data-section entry: the text, its offset and its length in bytes.
pub type DataEntry = (Seq<char>, int, int);

/// Where the data section places each of `keys`: one after another from
/// offset 0.
pub open spec fn layout(keys: Seq<Seq<char>>) -> Seq<DataEntry>
    decreases keys.len(),
{
    if keys.len() == 0 {
        seq![]
    } else {
        let prev = layout(keys.drop_last());
        prev.push((keys.last(), end_of(prev), byte_len(keys.last()) as int))
    }
}

/// The first free offset after `entries`.
pub open spec fn end_of(entries: Seq<DataEntry>) -> int {
    if entries.len() == 0 {
        0
    } else {
        entries.last().1 + entries.last().2
    }
}

/// The string constants loaded by `s`, in order, repeats included.
pub open spec fn strings_of(s: Seq<IRInstr>) -> Seq<Seq<char>>
    decreases s.len(),
{
    if s.len() == 0 {
        seq![]
    } else {
        strings_of(s.drop_last()) + match s.last() {
            IRInstr::LoadConstString(t) => seq![t@],
            _ => seq![],
        }
    }
}

/// The string constants of the first `n` functions of `fs`, in order.
pub open spec fn module_strings(fs: Seq<IRFunction>, n: int) -> Seq<Seq<char>>
    decreases n,
    when 0 <= n <= fs.len()
{
    if n == 0 {
        seq![]
    } else {
        module_strings(fs, n - 1) + strings_of(fs[n - 1].instructions@)
    }
}

/// The import names called by the first `n` functions of `fs`, in order.
pub open spec fn module_calls(fs: Seq<IRFunction>, n: int) -> Seq<Seq<char>>
    decreases n,
    when 0 <= n <= fs.len()
{
    if n == 0 {
        seq![]
    } else {
        module_calls(fs, n - 1) + imports_in(fs[n - 1].instructions@)
    }
}

/// A linear arena for string constants: each distinct string gets the next
/// free offset and its byte length.
#[derive(Debug)]
pub struct MemoryAllocator {
    offset: usize,
    strings: Vec<(String, usize, usize)>,
}

impl MemoryAllocator {
    /// The strings placed so far, in placement order.
    pub closed spec fn keys(&self) -> Seq<Seq<char>> {
        self.strings@.map_values(|e: (String, usize, usize)| e.0@)
    }

    /// The placed strings with their offsets and lengths.
    pub closed spec fn entries(&self) -> Seq<DataEntry> {
        self.strings@.map_values(|e: (String, usize, usize)| (e.0@, e.1 as int, e.2 as int))
    }

    /// The next free offset.
    pub closed spec fn next_offset(&self) -> int {
        self.offset as int
    }

    /// Entries are distinct and laid out one after another from 0.
    pub closed spec fn wf(&self) -> bool {
        &&& self.entries() == layout(self.keys())
        &&& self.keys().no_duplicates()
        &&& self.offset == end_of(self.entries())
    }

    /// An empty arena.
    pub fn new() -> (r: Self)
        ensures
            r.wf(),
            r.keys().len() == 0,
            r.next_offset() == 0,
    {
        let r = MemoryAllocator { offset: 0, strings: Vec::new() };
        assert(r.entries() =~= layout(r.keys()));
        r
    }

    /// The offset and length of `s`, placing it first if it is new.
    pub fn allocate_string(&mut self, s: &str) -> (r: (usize, usize))
        requires
            old(self).wf(),
            old(self).next_offset() + byte_len(s@) <= usize::MAX,
        ensures
            final(self).wf(),
            final(self).keys() == add_unique(old(self).keys(), s@),
            final(self).next_offset() == old(self).next_offset() + if old(self).keys().contains(s@) {
                0
            } else {
                byte_len(s@) as int
            },
            exists|i: int|
                0 <= i < final(self).entries().len() && #[trigger] final(self).entries()[i] == (
                    s@,
                    r.0 as int,
                    r.1 as int,
                ),
    {
        let mut i: usize = 0;
        while i < self.strings.len()
            invariant
                i <= self.strings@.len(),
                self.wf(),
                self.strings@ == old(self).strings@,
                self.offset == old(self).offset,
                forall|j: int| 0 <= j < i ==> #[trigger] self.keys()[j] != s@,
            decreases self.strings@.len() - i,
        {
            assert(self.keys()[i as int] == self.strings@[i as int].0@);
            if str_eq(self.strings[i].0.as_str(), s) {
                let e = (self.strings[i].1, self.strings[i].2);
                assert(self.entries()[i as int] == (s@, e.0 as int, e.1 as int));
                assert(self.keys().contains(s@));
                return e;
            }
            i = i + 1;
        }
        assert(!self.keys().contains(s@));
        let ptr = self.offset;
        let len = s.len();
        let ghost old_keys = self.keys();
        let ghost old_entries = self.entries();
        self.strings.push((s.to_owned(), ptr, len));
        self.offset = ptr + len;
        assert(self.keys() =~= old_keys.push(s@));
        assert(self.entries() =~= old_entries.push((s@, ptr as int, len as int)));
        assert(self.keys().drop_last() =~= old_keys);
        assert(self.entries()[self.entries().len() - 1] == (s@, ptr as int, len as int));
        (ptr, len)
    }

    /// The offset and length of `s`, if it has been placed.
    pub fn find(&self, s: &str) -> (r: Option<(usize, usize)>)
        requires
            self.wf(),
        ensures
            match entry_for(self.entries(), s@) {
                Some(e) => r matches Some(x) && x.0 == e.0 && x.1 == e.1,
                None => r is None,
            },
    {
        let mut i: usize = self.strings.len();
        assert(self.entries().subrange(0, i as int) =~= self.entries());
        while i > 0
            invariant
                i <= self.strings@.len(),
                entry_for(self.entries(), s@) == entry_for(self.entries().subrange(0, i as int), s@),
            decreases i,
        {
            assert(self.entries().subrange(0, i as int).drop_last() =~= self.entries().subrange(0, i - 1));
            assert(self.entries()[i - 1] == (self.strings@[i - 1].0@, self.strings@[i - 1].1 as int, self.strings@[i - 1].2 as int));
            if str_eq(self.strings[i - 1].0.as_str(), s) {
                return Some((self.strings[i - 1].1, self.strings[i - 1].2));
            }
            i = i - 1;
        }
        None
    }

    /// The data section: one `(data ...)` line per placed string.
    pub fn get_data_section(&self) -> (r: String)
        requires
            self.wf(),
        ensures
            r@ == data_text(self.entries()),
    {
        let mut out = String::new();
        let mut i: usize = 0;
        while i < self.strings.len()
            invariant
                i <= self.strings@.len(),
                out@ == data_text(self.entries().subrange(0, i as int)),
            decreases self.strings@.len() - i,
        {
            let ghost before = out@;
            push_str(&mut out, "  (data (i32.const ");
            push_nat(&mut out, self.strings[i].1 as u128);
            push_str(&mut out, ") \"");
            let esc = escape_wat_string(self.strings[i].0.as_str());
            push_str(&mut out, esc.as_str());
            push_str(&mut out, "\")\n");
            let ghost e = self.entries()[i as int];
            assert(e == (self.strings@[i as int].0@, self.strings@[i as int].1 as int, self.strings@[i as int].2 as int));
            assert(out@ =~= before + data_line(e));
            assert(self.entries().subrange(0, i + 1).drop_last() =~= self.entries().subrange(0, i as int));
            i = i + 1;
        }
        assert(self.entries().subrange(0, i as int) =~= self.entries());
        out
    }
}

/// A lower-case hexadecimal digit.
pub open spec fn hex_digit(d: int) -> char {
    if d < 10 {
        ((d + 48) as u8) as char
    } else {
        ((d + 87) as u8) as char
    }
}

/// How the data section writes one byte.
pub open spec fn escape_byte(b: u8) -> Seq<char> {
    if b == 34 {
        seq!['\\', '"']
    } else if b == 92 {
        seq!['\\', '\\']
    } else if b == 10 {
        seq!['\\', 'n']
    } else if b == 13 {
        seq!['\\', 'r']
    } else if b == 9 {
        seq!['\\', 't']
    } else if 32 <= b <= 126 {
        seq![b as char]
    } else {
        seq!['\\', hex_digit((b / 16) as int), hex_digit((b % 16) as int)]
    }
}

/// How the data section writes a byte string.
pub open spec fn escape_bytes(bs: Seq<u8>) -> Seq<char>
    decreases bs.len(),
{
    if bs.len() == 0 {
        seq![]
    } else {
        escape_bytes(bs.drop_last()) + escape_byte(bs.last())
    }
}

/// How the data section writes a text: byte by byte over its UTF-8 form.
pub open spec fn escape_wat(s: Seq<char>) -> Seq<char> {
    escape_bytes(vstd::utf8::encode_utf8(s))
}

/// One data-section line.
pub open spec fn data_line(e: DataEntry) -> Seq<char> {
    "  (data (i32.const "@ + nat_text(e.1 as nat) + ") \""@ + escape_wat(e.0) + "\")\n"@
}

/// The data-section lines of `entries`, in order.
pub open spec fn data_text(entries: Seq<DataEntry>) -> Seq<char>
    decreases entries.len(),
{
    if entries.len() == 0 {
        seq![]
    } else {
        data_text(entries.drop_last()) + data_line(entries.last())
    }
}

fn hex(d: u8) -> (c: char)
    requires
        d < 16,
    ensures
        c == hex_digit(d as int),
{
    if d < 10 {
        (d + 48) as char
    } else {
        (d + 87) as char
    }
}

/// Escapes a text for a WAT string literal: quote, backslash, newline,
/// carriage return and tab by name, printable ASCII as it is, and every
/// other byte as two hexadecimal digits.
pub fn escape_wat_string(s: &str) -> (r: String)
    ensures
        r@ == escape_wat(s@),
{
    let bytes = s.as_bytes();
    let mut out = String::new();
    let mut i: usize = 0;
    while i < bytes.len()
        invariant
            bytes@ == vstd::utf8::encode_utf8(s@),
            i <= bytes@.len(),
            out@ == escape_bytes(bytes@.subrange(0, i as int)),
        decreases bytes@.len() - i,
    {
        let b = bytes[i];
        let ghost before = out@;
        if b == 34 {
            push_char(&mut out, '\\');
            push_char(&mut out, '"');
        } else if b == 92 {
            push_char(&mut out, '\\');
            push_char(&mut out, '\\');
        } else if b == 10 {
            push_char(&mut out, '\\');
            push_char(&mut out, 'n');
        } else if b == 13 {
            push_char(&mut out, '\\');
            push_char(&mut out, 'r');
        } else if b == 9 {
            push_char(&mut out, '\\');
            push_char(&mut out, 't');
        } else if 32 <= b && b <= 126 {
            push_char(&mut out, b as char);
        } else {
            push_char(&mut out, '\\');
            push_char(&mut out, hex(b / 16));
            push_char(&mut out, hex(b % 16));
        }
        assert(out@ =~= before + escape_byte(b));
        assert(bytes@.subrange(0, i + 1).drop_last() =~= bytes@.subrange(0, i as int));
        i = i + 1;
    }
    assert(bytes@.subrange(0, i as int) =~= bytes@);
    out
}

/// How a comment writes one character.
pub open spec fn comment_char(c: char) -> Seq<char> {
    if c == '\\' {
        seq!['\\', '\\']
    } else if c == '"' {
        seq!['\\', '"']
    } else if c == '\n' {
        seq!['\\', 'n']
    } else if c == '\r' {
        seq!['\\', 'r']
    } else {
        seq![c]
    }
}

/// How a comment writes a text.
pub open spec fn comment_text(s: Seq<char>) -> Seq<char>
    decreases s.len(),
{
    if s.len() == 0 {
        seq![]
    } else {
        comment_text(s.drop_last()) + comment_char(s.last())
    }
}

/// Escapes a text for a WAT comment: backslash, quote, newline and
/// carriage return get a backslash.
pub fn escape_string(s: &str) -> (r: String)
    ensures
        r@ == comment_text(s@),
{
    let cs = chars_of(s);
    let mut out = String::new();
    let mut i: usize = 0;
    while i < cs.len()
        invariant
            cs@ == s@,
            i <= cs@.len(),
            out@ == comment_text(cs@.subrange(0, i as int)),
        decreases cs@.len() - i,
    {
        let c = cs[i];
        let ghost before = out@;
        if c == '\\' {
            push_char(&mut out, '\\');
            push_char(&mut out, '\\');
        } else if c == '"' {
            push_char(&mut out, '\\');
            push_char(&mut out, '"');
        } else if c == '\n' {
            push_char(&mut out, '\\');
            push_char(&mut out, 'n');
        } else if c == '\r' {
            push_char(&mut out, '\\');
            push_char(&mut out, 'r');
        } else {
            push_char(&mut out, c);
        }
        assert(out@ =~= before + comment_char(c));
        assert(cs@.subrange(0, i + 1).drop_last() =~= cs@.subrange(0, i as int));
        i = i + 1;
    }
    assert(cs@.subrange(0, i as int) =~= cs@);
    out
}

/// A name with every `.` replaced by `_`, as WAT identifiers need.
pub open spec fn sanitized(s: Seq<char>) -> Seq<char> {
    s.map_values(|c: char| if c == '.' { '_' } else { c })
}

/// Replaces every `.` of a name by `_`.
pub fn sanitize(s: &str) -> (r: String)
    ensures
        r@ == sanitized(s@),
{
    let cs = chars_of(s);
    let mut out = String::new();
    let mut i: usize = 0;
    while i < cs.len()
        invariant
            cs@ == s@,
            i <= cs@.len(),
            out@ == sanitized(cs@.subrange(0, i as int)),
        decreases cs@.len() - i,
    {
        if cs[i] == '.' {
            push_char(&mut out, '_');
        } else {
            push_char(&mut out, cs[i]);
        }
        i = i + 1;
        assert(out@ =~= sanitized(cs@.subrange(0, i as int)));
    }
    assert(cs@.subrange(0, i as int) =~= cs@);
    out
}

/// The entry of `s` among `entries`: its offset and length.
pub open spec fn entry_for(entries: Seq<DataEntry>, s: Seq<char>) -> Option<(int, int)>
    decreases entries.len(),
{
    if entries.len() == 0 {
        None
    } else if entries.last().0 == s {
        Some((entries.last().1, entries.last().2))
    } else {
        entry_for(entries.drop_last(), s)
    }
}

/// The runtime imports with fixed signatures: name and declaration line.
pub open spec fn import_table() -> Seq<(Seq<char>, Seq<char>)> {
    seq![
        ("print"@, "  (import \"env\" \"print_str\" (func $print (param i32 i32)))\n"@),
        ("println"@, "  (import \"env\" \"println_str\" (func $println (param i32 i32)))\n"@),
        ("input"@, "  (import \"env\" \"input\" (func $input (result i32)))\n"@),
        ("len"@, "  (import \"env\" \"len\" (func $len (param i32) (result i32)))\n"@),
        ("exit"@, "  (import \"env\" \"exit\" (func $exit (param i32)))\n"@),
        ("panic"@, "  (import \"env\" \"panic\" (func $panic (param i32 i32)))\n"@),
        ("abs"@, "  (import \"env\" \"abs\" (func $abs (param i32) (result i32)))\n"@),
        ("pow"@, "  (import \"env\" \"pow\" (func $pow (param i32 i32) (result i32)))\n"@),
        ("sqrt"@, "  (import \"env\" \"sqrt\" (func $sqrt (param i32) (result i32)))\n"@),
        ("min"@, "  (import \"env\" \"min\" (func $min (param i32 i32) (result i32)))\n"@),
        ("max"@, "  (import \"env\" \"max\" (func $max (param i32 i32) (result i32)))\n"@),
        ("rand"@, "  (import \"env\" \"rand\" (func $rand (param i32) (result i32)))\n"@),
        ("time"@, "  (import \"env\" \"time\" (func $time (result i32)))\n"@),
        ("sleep"@, "  (import \"env\" \"sleep\" (func $sleep (param i32)))\n"@),
        ("hash"@, "  (import \"env\" \"hash\" (func $hash (param i32 i32) (result i32)))\n"@),
        ("keccak"@, "  (import \"env\" \"keccak\" (func $keccak (param i32 i32) (result i32)))\n"@),
        ("sha256"@, "  (import \"env\" \"sha256\" (func $sha256 (param i32 i32) (result i32)))\n"@),
        ("ai.generate"@, "  (import \"env\" \"ai_generate\" (func $ai_generate (param i32 i32) (result i32)))\n"@),
        ("ai.embed"@, "  (import \"env\" \"ai_embed\" (func $ai_embed (param i32 i32) (result i32)))\n"@),
        ("ai.classify"@, "  (import \"env\" \"ai_classify\" (func $ai_classify (param i32 i32) (result i32)))\n"@),
        ("web3.wallet"@, "  (import \"env\" \"web3_wallet\" (func $web3_wallet (result i32)))\n"@),
        ("web3.sign"@, "  (import \"env\" \"web3_sign\" (func $web3_sign (param i32 i32) (result i32)))\n"@),
        ("web3.verify"@, "  (import \"env\" \"web3_verify\" (func $web3_verify (param i32 i32 i32 i32) (result i32)))\n"@),
        ("web3.keccak"@, "  (import \"env\" \"web3_keccak\" (func $web3_keccak (param i32 i32) (result i32)))\n"@),
        ("web3.balance"@, "  (import \"env\" \"web3_balance\" (func $web3_balance (param i32) (result i32)))\n"@),
        ("web3.send"@, "  (import \"env\" \"web3_send\" (func $web3_send (param i32 i32) (result i32)))\n"@),
    ]
}

/// The declaration line of a table entry named `name`, searching the
/// first `n` rows.
pub open spec fn table_line(name: Seq<char>, n: int) -> Option<Seq<char>>
    decreases n,
    when 0 <= n <= import_table().len()
{
    if n == 0 {
        None
    } else if import_table()[n - 1].0 == name {
        Some(import_table()[n - 1].1)
    } else {
        table_line(name, n - 1)
    }
}

/// The import declaration of `name`: its fixed signature, or one `i32`
/// parameter for a name outside the table.
pub open spec fn import_line(name: Seq<char>) -> Seq<char> {
    match table_line(name, import_table().len() as int) {
        Some(l) => l,
        None => "  (import \"env\" \""@ + sanitized(name) + "\" (func $"@ + sanitized(name) + " (param i32)))\n"@,
    }
}

/// Declares one runtime import.
pub fn generate_import(func_name: &str) -> (r: String)
    ensures
        r@ == import_line(func_name@),
{
    let table: Vec<(&'static str, &'static str)> = vec![
        ("print", "  (import \"env\" \"print_str\" (func $print (param i32 i32)))\n"),
        ("println", "  (import \"env\" \"println_str\" (func $println (param i32 i32)))\n"),
        ("input", "  (import \"env\" \"input\" (func $input (result i32)))\n"),
        ("len", "  (import \"env\" \"len\" (func $len (param i32) (result i32)))\n"),
        ("exit", "  (import \"env\" \"exit\" (func $exit (param i32)))\n"),
        ("panic", "  (import \"env\" \"panic\" (func $panic (param i32 i32)))\n"),
        ("abs", "  (import \"env\" \"abs\" (func $abs (param i32) (result i32)))\n"),
        ("pow", "  (import \"env\" \"pow\" (func $pow (param i32 i32) (result i32)))\n"),
        ("sqrt", "  (import \"env\" \"sqrt\" (func $sqrt (param i32) (result i32)))\n"),
        ("min", "  (import \"env\" \"min\" (func $min (param i32 i32) (result i32)))\n"),
        ("max", "  (import \"env\" \"max\" (func $max (param i32 i32) (result i32)))\n"),
        ("rand", "  (import \"env\" \"rand\" (func $rand (param i32) (result i32)))\n"),
        ("time", "  (import \"env\" \"time\" (func $time (result i32)))\n"),
        ("sleep", "  (import \"env\" \"sleep\" (func $sleep (param i32)))\n"),
        ("hash", "  (import \"env\" \"hash\" (func $hash (param i32 i32) (result i32)))\n"),
        ("keccak", "  (import \"env\" \"keccak\" (func $keccak (param i32 i32) (result i32)))\n"),
        ("sha256", "  (import \"env\" \"sha256\" (func $sha256 (param i32 i32) (result i32)))\n"),
        ("ai.generate", "  (import \"env\" \"ai_generate\" (func $ai_generate (param i32 i32) (result i32)))\n"),
        ("ai.embed", "  (import \"env\" \"ai_embed\" (func $ai_embed (param i32 i32) (result i32)))\n"),
        ("ai.classify", "  (import \"env\" \"ai_classify\" (func $ai_classify (param i32 i32) (result i32)))\n"),
        ("web3.wallet", "  (import \"env\" \"web3_wallet\" (func $web3_wallet (result i32)))\n"),
        ("web3.sign", "  (import \"env\" \"web3_sign\" (func $web3_sign (param i32 i32) (result i32)))\n"),
        ("web3.verify", "  (import \"env\" \"web3_verify\" (func $web3_verify (param i32 i32 i32 i32) (result i32)))\n"),
        ("web3.keccak", "  (import \"env\" \"web3_keccak\" (func $web3_keccak (param i32 i32) (result i32)))\n"),
        ("web3.balance", "  (import \"env\" \"web3_balance\" (func $web3_balance (param i32) (result i32)))\n"),
        ("web3.send", "  (import \"env\" \"web3_send\" (func $web3_send (param i32 i32) (result i32)))\n"),
    ];
    assert(table@.len() == import_table().len());
    assert(forall|k: int| 0 <= k < table@.len() ==> (#[trigger] table@[k]).0@ == import_table()[k].0 && table@[k].1@ == import_table()[k].1);
    let mut j: usize = table.len();
    while j > 0
        invariant
            j <= table@.len(),
            table@.len() == import_table().len(),
            forall|k: int| 0 <= k < table@.len() ==> (#[trigger] table@[k]).0@ == import_table()[k].0 && table@[k].1@ == import_table()[k].1,
            table_line(func_name@, import_table().len() as int) == table_line(func_name@, j as int),
        decreases j,
    {
        assert(table@[j - 1].0@ == import_table()[j - 1].0);
        if str_eq(table[j - 1].0, func_name) {
            return String::from_str(table[j - 1].1);
        }
        j = j - 1;
    }
    let id = sanitize(func_name);
    let mut out = String::new();
    push_str(&mut out, "  (import \"env\" \"");
    push_str(&mut out, id.as_str());
    push_str(&mut out, "\" (func $");
    push_str(&mut out, id.as_str());
    push_str(&mut out, " (param i32)))\n");
    out
}

/// `s` repeated `n` times.
pub open spec fn repeat(s: Seq<char>, n: nat) -> Seq<char>
    decreases n,
{
    if n == 0 {
        seq![]
    } else {
        repeat(s, (n - 1) as nat) + s
    }
}

/// The WAT text of one instruction; string constants take their offset and
/// length from `entries`.
pub open spec fn instr_text(i: IRInstr, entries: Seq<DataEntry>) -> Seq<char> {
    match i {
        IRInstr::LoadConstInt(n) => "    i32.const "@ + int_text(n as int) + "\n"@,
        IRInstr::LoadConstFloat(t) => "    f32.const "@ + t@ + "\n"@,
        IRInstr::LoadConstBool(b) => if b {
            "    i32.const 1\n"@
        } else {
            "    i32.const 0\n"@
        },
        IRInstr::LoadConstString(t) => match entry_for(entries, t@) {
            Some(e) => "    i32.const "@ + nat_text(e.0 as nat) + "  ;; ptr to \""@ + comment_text(t@)
                + "\"\n"@ + "    i32.const "@ + nat_text(e.1 as nat) + "  ;; len\n"@,
            None => "    i32.const 0  ;; string not found: "@ + comment_text(t@) + "\n"@
                + "    i32.const 0\n"@,
        },
        IRInstr::LoadVar(x) => "    local.get $"@ + x@ + "\n"@,
        IRInstr::StoreVar(x) => "    local.set $"@ + x@ + "\n"@,
        IRInstr::LoadLocal(k) => "    local.get "@ + nat_text(k as nat) + "  ;; load from slot "@ + nat_text(
            k as nat,
        ) + "\n"@,
        IRInstr::StoreLocal(k) => "    local.set "@ + nat_text(k as nat) + "  ;; store to slot "@ + nat_text(
            k as nat,
        ) + "\n"@,
        IRInstr::Add => "    i32.add\n"@,
        IRInstr::Sub => "    i32.sub\n"@,
        IRInstr::Mul => "    i32.mul\n"@,
        IRInstr::Div => "    i32.div_s\n"@,
        IRInstr::Mod => "    i32.rem_s\n"@,
        IRInstr::Eq => "    i32.eq\n"@,
        IRInstr::Ne => "    i32.ne\n"@,
        IRInstr::Lt => "    i32.lt_s\n"@,
        IRInstr::Le => "    i32.le_s\n"@,
        IRInstr::Gt => "    i32.gt_s\n"@,
        IRInstr::Ge => "    i32.ge_s\n"@,
        IRInstr::And => "    i32.and\n"@,
        IRInstr::Or => "    i32.or\n"@,
        IRInstr::Not => "    i32.const 1\n"@ + "    i32.xor\n"@,
        IRInstr::Jump(t) => "    br "@ + nat_text(t as nat) + "\n"@,
        IRInstr::JumpIfFalse(t) => "    i32.eqz\n"@ + "    br_if "@ + nat_text(t as nat) + "\n"@,
        IRInstr::Call(x, _) => "    call $"@ + sanitized(x@) + "\n"@,
        IRInstr::CallStd(x) => "    call $"@ + sanitized(x@) + "\n"@,
        IRInstr::CallAI(x) => "    call $"@ + sanitized(x@) + "\n"@,
        IRInstr::CallWeb3(x) => "    call $"@ + sanitized(x@) + "\n"@,
        IRInstr::CallFS(x) => "    call $"@ + sanitized(x@) + "\n"@,
        IRInstr::Return => "    return\n"@,
        IRInstr::Panic => "    call $panic\n"@ + "    unreachable\n"@,
        IRInstr::Pop => "    drop\n"@,
        IRInstr::Dup => "    local.tee $__dup_temp\n"@ + "    local.get $__dup_temp\n"@,
        IRInstr::Nop => "    nop\n"@,
    }
}

/// The WAT text of an instruction list.
pub open spec fn body_text(s: Seq<IRInstr>, entries: Seq<DataEntry>) -> Seq<char>
    decreases s.len(),
{
    if s.len() == 0 {
        seq![]
    } else {
        body_text(s.drop_last(), entries) + instr_text(s.last(), entries)
    }
}

fn push_call(out: &mut String, x: &String)
    ensures
        final(out)@ == old(out)@ + "    call $"@ + sanitized(x@) + "\n"@,
{
    push_str(out, "    call $");
    let id = sanitize(x.as_str());
    push_str(out, id.as_str());
    push_str(out, "\n");
}

fn push_instr(out: &mut String, i: &IRInstr, alloc: &MemoryAllocator)
    requires
        alloc.wf(),
    ensures
        final(out)@ == old(out)@ + instr_text(*i, alloc.entries()),
{
    match i {
        IRInstr::LoadConstInt(n) => {
            push_str(out, "    i32.const ");
            push_int(out, *n);
            push_str(out, "\n");
        },
        IRInstr::LoadConstFloat(t) => {
            push_str(out, "    f32.const ");
            push_str(out, t.as_str());
            push_str(out, "\n");
        },
        IRInstr::LoadConstBool(b) => {
            if *b {
                push_str(out, "    i32.const 1\n");
            } else {
                push_str(out, "    i32.const 0\n");
            }
        },
        IRInstr::LoadConstString(t) => {
            let esc = escape_string(t.as_str());
            match alloc.find(t.as_str()) {
                Some(e) => {
                    push_str(out, "    i32.const ");
                    push_nat(out, e.0 as u128);
                    push_str(out, "  ;; ptr to \"");
                    push_str(out, esc.as_str());
                    push_str(out, "\"\n");
                    push_str(out, "    i32.const ");
                    push_nat(out, e.1 as u128);
                    push_str(out, "  ;; len\n");
                },
                None => {
                    push_str(out, "    i32.const 0  ;; string not found: ");
                    push_str(out, esc.as_str());
                    push_str(out, "\n");
                    push_str(out, "    i32.const 0\n");
                },
            }
        },
        IRInstr::LoadVar(x) => {
            push_str(out, "    local.get $");
            push_str(out, x.as_str());
            push_str(out, "\n");
        },
        IRInstr::StoreVar(x) => {
            push_str(out, "    local.set $");
            push_str(out, x.as_str());
            push_str(out, "\n");
        },
        IRInstr::LoadLocal(k) => {
            push_str(out, "    local.get ");
            push_nat(out, *k as u128);
            push_str(out, "  ;; load from slot ");
            push_nat(out, *k as u128);
            push_str(out, "\n");
        },
        IRInstr::StoreLocal(k) => {
            push_str(out, "    local.set ");
            push_nat(out, *k as u128);
            push_str(out, "  ;; store to slot ");
            push_nat(out, *k as u128);
            push_str(out, "\n");
        },
        IRInstr::Add => push_str(out, "    i32.add\n"),
        IRInstr::Sub => push_str(out, "    i32.sub\n"),
        IRInstr::Mul => push_str(out, "    i32.mul\n"),
        IRInstr::Div => push_str(out, "    i32.div_s\n"),
        IRInstr::Mod => push_str(out, "    i32.rem_s\n"),
        IRInstr::Eq => push_str(out, "    i32.eq\n"),
        IRInstr::Ne => push_str(out, "    i32.ne\n"),
        IRInstr::Lt => push_str(out, "    i32.lt_s\n"),
        IRInstr::Le => push_str(out, "    i32.le_s\n"),
        IRInstr::Gt => push_str(out, "    i32.gt_s\n"),
        IRInstr::Ge => push_str(out, "    i32.ge_s\n"),
        IRInstr::And => push_str(out, "    i32.and\n"),
        IRInstr::Or => push_str(out, "    i32.or\n"),
        IRInstr::Not => {
            push_str(out, "    i32.const 1\n");
            push_str(out, "    i32.xor\n");
        },
        IRInstr::Jump(t) => {
            push_str(out, "    br ");
            push_nat(out, *t as u128);
            push_str(out, "\n");
        },
        IRInstr::JumpIfFalse(t) => {
            push_str(out, "    i32.eqz\n");
            push_str(out, "    br_if ");
            push_nat(out, *t as u128);
            push_str(out, "\n");
        },
        IRInstr::Call(x, _) => push_call(out, x),
        IRInstr::CallStd(x) => push_call(out, x),
        IRInstr::CallAI(x) => push_call(out, x),
        IRInstr::CallWeb3(x) => push_call(out, x),
        IRInstr::CallFS(x) => push_call(out, x),
        IRInstr::Return => push_str(out, "    return\n"),
        IRInstr::Panic => {
            push_str(out, "    call $panic\n");
            push_str(out, "    unreachable\n");
        },
        IRInstr::Pop => push_str(out, "    drop\n"),
        IRInstr::Dup => {
            push_str(out, "    local.tee $__dup_temp\n");
            push_str(out, "    local.get $__dup_temp\n");
        },
        IRInstr::Nop => push_str(out, "    nop\n"),
    }
}

/// The WAT text of one function: its signature, its extra locals, its
/// body, and its export under its dotted name.
pub open spec fn function_text(
    name: Seq<char>,
    instrs: Seq<IRInstr>,
    entries: Seq<DataEntry>,
    param_count: nat,
    local_count: nat,
) -> Seq<char> {
    "  (func $"@ + sanitized(name) + repeat(" (param i32)"@, param_count) + " (result i32)\n"@ + (
    if local_count > param_count {
        "    (local"@ + repeat(" i32"@, (local_count - param_count) as nat) + ")\n"@
    } else {
        seq![]
    }) + body_text(instrs, entries) + "  )\n"@ + "  (export \""@ + name + "\" (func $"@ + sanitized(
        name,
    ) + "))\n"@
}

/// Emits one function, taking string offsets from `allocator`.
pub fn generate_function(
    name: &str,
    instrs: &[IRInstr],
    allocator: &MemoryAllocator,
    param_count: usize,
    local_count: usize,
) -> (r: String)
    requires
        allocator.wf(),
    ensures
        r@ == function_text(name@, instrs@, allocator.entries(), param_count as nat, local_count as nat),
{
    let id = sanitize(name);
    let mut out = String::new();
    push_str(&mut out, "  (func $");
    push_str(&mut out, id.as_str());
    let ghost head = out@;
    let mut k: usize = 0;
    while k < param_count
        invariant
            k <= param_count,
            out@ == head + repeat(" (param i32)"@, k as nat),
        decreases param_count - k,
    {
        push_str(&mut out, " (param i32)");
        k = k + 1;
    }
    push_str(&mut out, " (result i32)\n");
    let ghost sig = out@;
    if local_count > param_count {
        push_str(&mut out, "    (local");
        let ghost lhead = out@;
        let extra = local_count - param_count;
        let mut j: usize = 0;
        while j < extra
            invariant
                j <= extra,
                out@ == lhead + repeat(" i32"@, j as nat),
            decreases extra - j,
        {
            push_str(&mut out, " i32");
            j = j + 1;
        }
        push_str(&mut out, ")\n");
    }
    let ghost locals = out@;
    let mut i: usize = 0;
    while i < instrs.len()
        invariant
            allocator.wf(),
            i <= instrs@.len(),
            out@ == locals + body_text(instrs@.subrange(0, i as int), allocator.entries()),
        decreases instrs@.len() - i,
    {
        push_instr(&mut out, &instrs[i], allocator);
        assert(instrs@.subrange(0, i + 1).drop_last() =~= instrs@.subrange(0, i as int));
        i = i + 1;
    }
    assert(instrs@.subrange(0, i as int) =~= instrs@);
    push_str(&mut out, "  )\n");
    push_str(&mut out, "  (export \"");
    push_str(&mut out, name);
    push_str(&mut out, "\" (func $");
    push_str(&mut out, id.as_str());
    push_str(&mut out, "))\n");
    out
}

/// The import declarations of `names`, in order.
pub open spec fn imports_text(names: Seq<Seq<char>>) -> Seq<char>
    decreases names.len(),
{
    if names.len() == 0 {
        seq![]
    } else {
        imports_text(names.drop_last()) + import_line(names.last())
    }
}

/// The functions of `fs[0..n]`, each followed by a blank line.
pub open spec fn functions_text(fs: Seq<IRFunction>, n: int, entries: Seq<DataEntry>) -> Seq<char>
    decreases n,
    when 0 <= n <= fs.len()
{
    if n == 0 {
        seq![]
    } else {
        functions_text(fs, n - 1, entries) + function_text(
            fs[n - 1].name@,
            fs[n - 1].instructions@,
            entries,
            fs[n - 1].param_count as nat,
            fs[n - 1].local_count as nat,
        ) + "\n"@
    }
}

/// The data section of a module: its distinct string constants laid out
/// in order of first use.
pub open spec fn module_data(fs: Seq<IRFunction>) -> Seq<DataEntry> {
    layout(dedup(module_strings(fs, fs.len() as int)))
}

/// The imports of a module: the distinct import names it calls, in order
/// of first call.
pub open spec fn module_imports(fs: Seq<IRFunction>) -> Seq<Seq<char>> {
    dedup(module_calls(fs, fs.len() as int))
}

/// The whole WAT module.
pub open spec fn module_text(fs: Seq<IRFunction>) -> Seq<char> {
    let data = module_data(fs);
    let imports = module_imports(fs);
    "(module\n"@ + "  (memory (export \"memory\") 1)\n\n"@ + (if data.len() > 0 {
        data_text(data) + "\n"@
    } else {
        seq![]
    }) + imports_text(imports) + (if imports.len() > 0 {
        "\n"@
    } else {
        seq![]
    }) + functions_text(fs, fs.len() as int, data) + ")\n"@
}

/// The total byte length of `ss`, repeats included.
pub open spec fn total_bytes(ss: Seq<Seq<char>>) -> int
    decreases ss.len(),
{
    if ss.len() == 0 {
        0
    } else {
        total_bytes(ss.drop_last()) + byte_len(ss.last())
    }
}

proof fn lemma_layout(keys: Seq<Seq<char>>)
    ensures
        layout(keys).len() == keys.len(),
        forall|i: int| 0 <= i < keys.len() ==> (#[trigger] layout(keys)[i]).0 == keys[i],
        end_of(layout(keys)) == total_bytes(keys),
    decreases keys.len(),
{
    if keys.len() > 0 {
        lemma_layout(keys.drop_last());
    }
}

proof fn lemma_dedup(ss: Seq<Seq<char>>)
    ensures
        dedup(ss).no_duplicates(),
        forall|x: Seq<char>| dedup(ss).contains(x) <==> ss.contains(x),
        total_bytes(dedup(ss)) <= total_bytes(ss),
    decreases ss.len(),
{
    if ss.len() > 0 {
        lemma_dedup(ss.drop_last());
        let d = dedup(ss.drop_last());
        assert forall|x: Seq<char>| dedup(ss).contains(x) <==> ss.contains(x) by {
            if ss.contains(x) && x != ss.last() {
                let i = choose|i: int| 0 <= i < ss.len() && ss[i] == x;
                assert(i < ss.len() - 1);
                assert(ss.drop_last()[i] == x);
                assert(ss.drop_last().contains(x));
                assert(d.contains(x));
                let k = choose|k: int| 0 <= k < d.len() && d[k] == x;
                if !d.contains(ss.last()) {
                    assert(d.push(ss.last())[k] == x);
                }
            }
            if dedup(ss).contains(x) && x != ss.last() {
                if !d.contains(ss.last()) {
                    let k = choose|k: int| 0 <= k < d.push(ss.last()).len() && d.push(ss.last())[k] == x;
                    assert(k < d.len());
                    assert(d[k] == x);
                }
                assert(d.contains(x));
                assert(ss.drop_last().contains(x));
                let i = choose|i: int| 0 <= i < ss.drop_last().len() && ss.drop_last()[i] == x;
                assert(ss[i] == x);
            }
            if x == ss.last() {
                assert(ss[ss.len() - 1] == x);
                if !d.contains(x) {
                    assert(d.push(x)[d.len() as int] == x);
                }
            }
        }
        if !d.contains(ss.last()) {
            assert(d.push(ss.last()).drop_last() =~= d);
        }
    }
}

/// The data section holds exactly the module's distinct string constants:
/// every loaded string has one entry, every entry is a loaded string, and
/// no string has two entries.
pub proof fn data_section_matches_strings(fs: Seq<IRFunction>)
    ensures
        forall|x: Seq<char>|
            (exists|i: int| 0 <= i < module_data(fs).len() && (#[trigger] module_data(fs)[i]).0 == x)
                <==> module_strings(fs, fs.len() as int).contains(x),
        forall|i: int, j: int|
            0 <= i < j < module_data(fs).len() ==> (#[trigger] module_data(fs)[i]).0 != (
            #[trigger] module_data(fs)[j]).0,
{
    let ms = module_strings(fs, fs.len() as int);
    lemma_dedup(ms);
    lemma_layout(dedup(ms));
    assert forall|x: Seq<char>|
        (exists|i: int| 0 <= i < module_data(fs).len() && (#[trigger] module_data(fs)[i]).0 == x)
            <==> ms.contains(x) by {
        if ms.contains(x) {
            assert(dedup(ms).contains(x));
            let i = choose|i: int| 0 <= i < dedup(ms).len() && dedup(ms)[i] == x;
            assert(module_data(fs)[i].0 == x);
        }
        if exists|i: int| 0 <= i < module_data(fs).len() && (#[trigger] module_data(fs)[i]).0 == x {
            let i = choose|i: int| 0 <= i < module_data(fs).len() && (#[trigger] module_data(fs)[i]).0 == x;
            assert(dedup(ms)[i] == x);
            assert(dedup(ms).contains(x));
        }
    }
}

/// Every import name the module calls is declared exactly once.
pub proof fn imports_declared_once(fs: Seq<IRFunction>)
    ensures
        module_imports(fs).no_duplicates(),
        forall|x: Seq<char>| module_imports(fs).contains(x) <==> module_calls(fs, fs.len() as int).contains(x),
{
    lemma_dedup(module_calls(fs, fs.len() as int));
}

proof fn lemma_total_concat(a: Seq<Seq<char>>, b: Seq<Seq<char>>)
    ensures
        total_bytes(a + b) == total_bytes(a) + total_bytes(b),
        total_bytes(a) >= 0,
        total_bytes(b) >= 0,
    decreases a.len() + b.len(),
{
    if b.len() == 0 {
        assert(a + b =~= a);
        if a.len() > 0 {
            lemma_total_concat(a.drop_last(), b);
        }
    } else {
        lemma_total_concat(a, b.drop_last());
        assert((a + b).drop_last() =~= a + b.drop_last());
    }
}

proof fn lemma_strings_concat(a: Seq<IRInstr>, b: Seq<IRInstr>)
    ensures
        strings_of(a + b) == strings_of(a) + strings_of(b),
    decreases b.len(),
{
    if b.len() == 0 {
        assert(a + b =~= a);
        assert(strings_of(a) + strings_of(b) =~= strings_of(a));
    } else {
        lemma_strings_concat(a, b.drop_last());
        assert((a + b).drop_last() =~= a + b.drop_last());
        assert(strings_of(a) + strings_of(b) =~= strings_of(a) + strings_of(b.drop_last()) + match b.last() {
            IRInstr::LoadConstString(t) => seq![t@],
            _ => seq![],
        });
    }
}

proof fn lemma_calls_concat(a: Seq<IRInstr>, b: Seq<IRInstr>)
    ensures
        imports_in(a + b) == imports_in(a) + imports_in(b),
    decreases b.len(),
{
    if b.len() == 0 {
        assert(a + b =~= a);
        assert(imports_in(a) + imports_in(b) =~= imports_in(a));
    } else {
        lemma_calls_concat(a, b.drop_last());
        assert((a + b).drop_last() =~= a + b.drop_last());
        assert(imports_in(a) + imports_in(b) =~= imports_in(a) + imports_in(b.drop_last()) + import_of(b.last()));
    }
}

proof fn lemma_module_strings_grow(fs: Seq<IRFunction>, k: int, n: int)
    requires
        0 <= k <= n <= fs.len(),
    ensures
        total_bytes(module_strings(fs, k)) <= total_bytes(module_strings(fs, n)),
    decreases n - k,
{
    if k < n {
        lemma_module_strings_grow(fs, k, n - 1);
        lemma_total_concat(module_strings(fs, n - 1), strings_of(fs[n - 1].instructions@));
    }
}

pub(crate) fn add_unique_name(names: &mut Vec<String>, name: &String)
    ensures
        final(names)@.map_values(|x: String| x@) == add_unique(old(names)@.map_values(|x: String| x@), name@),
{
    let ghost v = names@.map_values(|x: String| x@);
    let mut i: usize = 0;
    while i < names.len()
        invariant
            i <= names@.len(),
            names@ == old(names)@,
            v == names@.map_values(|x: String| x@),
            forall|j: int| 0 <= j < i ==> v[j] != name@,
        decreases names@.len() - i,
    {
        if names[i] == *name {
            assert(v[i as int] == name@);
            assert(v.contains(name@));
            return ;
        }
        i = i + 1;
    }
    names.push(name.clone());
    assert(names@.map_values(|x: String| x@) =~= v.push(name@));
}

/// Places every string constant of the module, in order of first use.
fn intern_module(module: &IRModule) -> (r: MemoryAllocator)
    requires
        total_bytes(module_strings(module.functions@, module.functions@.len() as int)) <= usize::MAX,
    ensures
        r.wf(),
        r.entries() == module_data(module.functions@),
{
    let ghost fs = module.functions@;
    let ghost n = fs.len() as int;
    let mut alloc = MemoryAllocator::new();
    let mut k: usize = 0;
    while k < module.functions.len()
        invariant
            fs == module.functions@,
            n == fs.len(),
            k <= n,
            alloc.wf(),
            alloc.keys() == dedup(module_strings(fs, k as int)),
            total_bytes(module_strings(fs, n)) <= usize::MAX,
        decreases n - k,
    {
        let instrs = &module.functions[k].instructions;
        let mut i: usize = 0;
        while i < instrs.len()
            invariant
                fs == module.functions@,
                n == fs.len(),
                k < n,
                instrs@ == fs[k as int].instructions@,
                i <= instrs@.len(),
                alloc.wf(),
                alloc.keys() == dedup(module_strings(fs, k as int) + strings_of(instrs@.subrange(0, i as int))),
                total_bytes(module_strings(fs, n)) <= usize::MAX,
            decreases instrs@.len() - i,
        {
            let ghost x = module_strings(fs, k as int) + strings_of(instrs@.subrange(0, i as int));
            assert(instrs@.subrange(0, i + 1).drop_last() =~= instrs@.subrange(0, i as int));
            match &instrs[i] {
                IRInstr::LoadConstString(t) => {
                    proof {
                        let y = strings_of(instrs@.subrange(0, i + 1));
                        lemma_dedup(x);
                        lemma_layout(alloc.keys());
                        lemma_strings_concat(instrs@.subrange(0, i + 1), instrs@.subrange(i + 1, instrs@.len() as int));
                        assert(instrs@.subrange(0, i + 1) + instrs@.subrange(i + 1, instrs@.len() as int) =~= instrs@);
                        lemma_total_concat(y, strings_of(instrs@.subrange(i + 1, instrs@.len() as int)));
                        lemma_total_concat(module_strings(fs, k as int), y);
                        lemma_total_concat(module_strings(fs, k as int), strings_of(instrs@));
                        lemma_module_strings_grow(fs, k + 1, n);
                        assert(x + seq![t@] =~= module_strings(fs, k as int) + y);
                        lemma_total_concat(x, seq![t@]);
                        assert(total_bytes(seq![t@]) == byte_len(t@)) by {
                            assert(seq![t@].drop_last() =~= Seq::<Seq<char>>::empty());
                            assert(total_bytes(Seq::<Seq<char>>::empty()) == 0);
                            assert(seq![t@].last() == t@);
                        }
                    }
                    alloc.allocate_string(t.as_str());
                    proof {
                        assert((x + seq![t@]).drop_last() =~= x);
                        assert(module_strings(fs, k as int) + strings_of(instrs@.subrange(0, i + 1)) =~= x + seq![t@]);
                    }
                },
                _ => {
                    assert(module_strings(fs, k as int) + strings_of(instrs@.subrange(0, i + 1)) =~= x);
                },
            }
            i = i + 1;
        }
        assert(instrs@.subrange(0, i as int) =~= instrs@);
        k = k + 1;
    }
    alloc
}

/// Collects the import names the module calls, in order of first call,
/// each once.
fn collect_imports(module: &IRModule) -> (r: Vec<String>)
    ensures
        r@.map_values(|x: String| x@) == module_imports(module.functions@),
{
    let ghost fs = module.functions@;
    let mut names: Vec<String> = Vec::new();
    let mut k: usize = 0;
    assert(names@.map_values(|x: String| x@) =~= dedup(module_calls(fs, 0)));
    while k < module.functions.len()
        invariant
            fs == module.functions@,
            k <= fs.len(),
            names@.map_values(|x: String| x@) == dedup(module_calls(fs, k as int)),
        decreases fs.len() - k,
    {
        let instrs = &module.functions[k].instructions;
        let mut i: usize = 0;
        assert(module_calls(fs, k as int) + imports_in(instrs@.subrange(0, 0)) =~= module_calls(fs, k as int));
        while i < instrs.len()
            invariant
                fs == module.functions@,
                k < fs.len(),
                instrs@ == fs[k as int].instructions@,
                i <= instrs@.len(),
                names@.map_values(|x: String| x@) == dedup(
                    module_calls(fs, k as int) + imports_in(instrs@.subrange(0, i as int)),
                ),
            decreases instrs@.len() - i,
        {
            let ghost x = module_calls(fs, k as int) + imports_in(instrs@.subrange(0, i as int));
            assert(instrs@.subrange(0, i + 1).drop_last() =~= instrs@.subrange(0, i as int));
            let ghost step = import_of(instrs@[i as int]);
            assert(module_calls(fs, k as int) + imports_in(instrs@.subrange(0, i + 1)) =~= x + step);
            match &instrs[i] {
                IRInstr::CallStd(t) | IRInstr::CallAI(t) | IRInstr::CallWeb3(t) | IRInstr::CallFS(t) => {
                    add_unique_name(&mut names, t);
                    assert((x + step).drop_last() =~= x);
                },
                IRInstr::Panic => {
                    let p = String::from_str("panic");
                    add_unique_name(&mut names, &p);
                    assert((x + step).drop_last() =~= x);
                },
                _ => {
                    assert(x + step =~= x);
                },
            }
            i = i + 1;
        }
        assert(instrs@.subrange(0, i as int) =~= instrs@);
        k = k + 1;
    }
    names
}

/// Emits the whole WAT module: memory export, data section, import
/// declarations, then each function with its export.
pub fn generate_wasm_module(module: &IRModule) -> (r: String)
    requires
        total_bytes(module_strings(module.functions@, module.functions@.len() as int)) <= usize::MAX,
    ensures
        r@ == module_text(module.functions@),
{
    let ghost fs = module.functions@;
    let alloc = intern_module(module);
    let names = collect_imports(module);
    let mut out = String::new();
    push_str(&mut out, "(module\n");
    push_str(&mut out, "  (memory (export \"memory\") 1)\n\n");
    let ghost head = out@;
    if alloc.strings.len() > 0 {
        let data = alloc.get_data_section();
        push_str(&mut out, data.as_str());
        push_str(&mut out, "\n");
    }
    assert(alloc.entries().len() == alloc.strings@.len());
    let ghost data_part = out@;
    let mut j: usize = 0;
    while j < names.len()
        invariant
            j <= names@.len(),
            out@ == data_part + imports_text(names@.map_values(|x: String| x@).subrange(0, j as int)),
        decreases names@.len() - j,
    {
        let line = generate_import(names[j].as_str());
        push_str(&mut out, line.as_str());
        assert(names@.map_values(|x: String| x@).subrange(0, j + 1).drop_last() =~= names@.map_values(
            |x: String| x@,
        ).subrange(0, j as int));
        j = j + 1;
    }
    assert(names@.map_values(|x: String| x@).subrange(0, j as int) =~= names@.map_values(|x: String| x@));
    if names.len() > 0 {
        push_str(&mut out, "\n");
    }
    let ghost imports_part = out@;
    let mut k: usize = 0;
    while k < module.functions.len()
        invariant
            fs == module.functions@,
            alloc.wf(),
            alloc.entries() == module_data(fs),
            k <= fs.len(),
            out@ == imports_part + functions_text(fs, k as int, module_data(fs)),
        decreases fs.len() - k,
    {
        let f = &module.functions[k];
        let text = generate_function(
            f.name.as_str(),
            f.instructions.as_slice(),
            &alloc,
            f.param_count,
            f.local_count,
        );
        push_str(&mut out, text.as_str());
        push_str(&mut out, "\n");
        k = k + 1;
    }
    push_str(&mut out, ")\n");
    out
}

/// The standalone text of one instruction: integer constants, arithmetic,
/// comparisons and `Return`; anything else is left out.
pub open spec fn plain_instr_text(i: IRInstr) -> Seq<char> {
    match i {
        IRInstr::LoadConstInt(n) => "    i32.const "@ + int_text(n as int) + "\n"@,
        IRInstr::Add => "    i32.add\n"@,
        IRInstr::Sub => "    i32.sub\n"@,
        IRInstr::Mul => "    i32.mul\n"@,
        IRInstr::Div => "    i32.div_s\n"@,
        IRInstr::Mod => "    i32.rem_s\n"@,
        IRInstr::Eq => "    i32.eq\n"@,
        IRInstr::Ne => "    i32.ne\n"@,
        IRInstr::Lt => "    i32.lt_s\n"@,
        IRInstr::Le => "    i32.le_s\n"@,
        IRInstr::Gt => "    i32.gt_s\n"@,
        IRInstr::Ge => "    i32.ge_s\n"@,
        IRInstr::Return => "    return\n"@,
        _ => seq![],
    }
}

/// The standalone text of an instruction list.
pub open spec fn plain_body_text(s: Seq<IRInstr>) -> Seq<char>
    decreases s.len(),
{
    if s.len() == 0 {
        seq![]
    } else {
        plain_body_text(s.drop_last()) + plain_instr_text(s.last())
    }
}

/// A module holding one exported function with the given body, for
/// straight-line integer code.
pub open spec fn wat_text(name: Seq<char>, s: Seq<IRInstr>) -> Seq<char> {
    "(module\n"@ + "  (func $"@ + name + " (result i32)\n"@ + plain_body_text(s) + "  )\n"@ + "  (export \""@
        + name + "\" (func $"@ + name + "))\n"@ + ")\n"@
}

/// Emits a module with one function from straight-line integer code.
pub fn generate_wat(function_name: &str, instrs: &[IRInstr]) -> (r: String)
    ensures
        r@ == wat_text(function_name@, instrs@),
{
    let mut out = String::new();
    push_str(&mut out, "(module\n");
    push_str(&mut out, "  (func $");
    push_str(&mut out, function_name);
    push_str(&mut out, " (result i32)\n");
    let ghost head = out@;
    let mut i: usize = 0;
    while i < instrs.len()
        invariant
            i <= instrs@.len(),
            out@ == head + plain_body_text(instrs@.subrange(0, i as int)),
        decreases instrs@.len() - i,
    {
        let ghost before = out@;
        match &instrs[i] {
            IRInstr::LoadConstInt(n) => {
                push_str(&mut out, "    i32.const ");
                push_int(&mut out, *n);
                push_str(&mut out, "\n");
            },
            IRInstr::Add => push_str(&mut out, "    i32.add\n"),
            IRInstr::Sub => push_str(&mut out, "    i32.sub\n"),
            IRInstr::Mul => push_str(&mut out, "    i32.mul\n"),
            IRInstr::Div => push_str(&mut out, "    i32.div_s\n"),
            IRInstr::Mod => push_str(&mut out, "    i32.rem_s\n"),
            IRInstr::Eq => push_str(&mut out, "    i32.eq\n"),
            IRInstr::Ne => push_str(&mut out, "    i32.ne\n"),
            IRInstr::Lt => push_str(&mut out, "    i32.lt_s\n"),
            IRInstr::Le => push_str(&mut out, "    i32.le_s\n"),
            IRInstr::Gt => push_str(&mut out, "    i32.gt_s\n"),
            IRInstr::Ge => push_str(&mut out, "    i32.ge_s\n"),
            IRInstr::Return => push_str(&mut out, "    return\n"),
            _ => {},
        }
        assert(out@ =~= before + plain_instr_text(instrs@[i as int]));
        assert(instrs@.subrange(0, i + 1).drop_last() =~= instrs@.subrange(0, i as int));
        i = i + 1;
    }
    assert(instrs@.subrange(0, i as int) =~= instrs@);
    push_str(&mut out, "  )\n");
    push_str(&mut out, "  (export \"");
    push_str(&mut out, function_name);
    push_str(&mut out, "\" (func $");
    push_str(&mut out, function_name);
    push_str(&mut out, "))\n");
    push_str(&mut out, ")\n");
    out
}

} // verus!
