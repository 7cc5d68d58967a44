//! The registry of runtime-provided functions: the standard library and the
//! AI, Web3 and file-system families.
use vstd::prelude::*;
use crate::text::{push_str, push_nat, nat_text, str_eq};

verus! {

/// The group a standard-library function belongs to.
#[derive(Debug, Clone, Copy, PartialEq, Eq, Structural)]
pub enum StdlibCategory {
    Core,
    Math,
    Time,
    Crypto,
    String,
    AI,
}

/// One standard-library entry.
#[derive(Debug, Clone, Copy)]
pub struct StdlibFunction {
    pub name: &'static str,
    pub category: StdlibCategory,
    pub description: &'static str,
    pub param_count: usize,
    pub return_type: &'static str,
}

/// An entry as plain values: name, category, description, parameter
/// count and return type.
pub type EntryView = (Seq<char>, StdlibCategory, Seq<char>, usize, Seq<char>);

impl StdlibFunction {
    pub open spec fn view(&self) -> EntryView {
        (self.name@, self.category, self.description@, self.param_count, self.return_type@)
    }
}

/// The standard library, in registry order.
pub open spec fn registry() -> Seq<EntryView> {
    seq![
        ("print"@, StdlibCategory::Core, "Print a value to stdout (no newline)"@, 1usize, "void"@),
        ("println"@, StdlibCategory::Core, "Print a value to stdout with newline"@, 1usize, "void"@),
        ("input"@, StdlibCategory::Core, "Read a line from stdin"@, 0usize, "string"@),
        ("len"@, StdlibCategory::Core, "Get length of a string or array"@, 1usize, "int"@),
        ("exit"@, StdlibCategory::Core, "Exit program with status code"@, 1usize, "void"@),
        ("abs"@, StdlibCategory::Math, "Absolute value of a number"@, 1usize, "int"@),
        ("pow"@, StdlibCategory::Math, "Raise base to exponent (base^exp)"@, 2usize, "int"@),
        ("sqrt"@, StdlibCategory::Math, "Square root of a number"@, 1usize, "int"@),
        ("min"@, StdlibCategory::Math, "Minimum of two numbers"@, 2usize, "int"@),
        ("max"@, StdlibCategory::Math, "Maximum of two numbers"@, 2usize, "int"@),
        ("rand"@, StdlibCategory::Math, "Random integer in range [0, max)"@, 1usize, "int"@),
        ("time"@, StdlibCategory::Time, "Current Unix timestamp in milliseconds"@, 0usize, "int"@),
        ("sleep"@, StdlibCategory::Time, "Sleep for specified milliseconds"@, 1usize, "void"@),
        ("hash"@, StdlibCategory::Crypto, "Generic hash function (defaults to keccak256)"@, 1usize, "string"@),
        ("keccak"@, StdlibCategory::Crypto, "Keccak-256 hash (Ethereum standard)"@, 1usize, "string"@),
        ("sha256"@, StdlibCategory::Crypto, "SHA-256 hash"@, 1usize, "string"@),
    ]
}

/// The registry's entries.
pub fn stdlib_functions() -> (r: Vec<StdlibFunction>)
    ensures
        r@.len() == registry().len(),
        forall|i: int| 0 <= i < r@.len() ==> #[trigger] r@[i].view() == registry()[i],
{
    let r = vec![
        StdlibFunction {
            name: "print",
            category: StdlibCategory::Core,
            description: "Print a value to stdout (no newline)",
            param_count: 1,
            return_type: "void",
        },
        StdlibFunction {
            name: "println",
            category: StdlibCategory::Core,
            description: "Print a value to stdout with newline",
            param_count: 1,
            return_type: "void",
        },
        StdlibFunction {
            name: "input",
            category: StdlibCategory::Core,
            description: "Read a line from stdin",
            param_count: 0,
            return_type: "string",
        },
        StdlibFunction {
            name: "len",
            category: StdlibCategory::Core,
            description: "Get length of a string or array",
            param_count: 1,
            return_type: "int",
        },
        StdlibFunction {
            name: "exit",
            category: StdlibCategory::Core,
            description: "Exit program with status code",
            param_count: 1,
            return_type: "void",
        },
        StdlibFunction {
            name: "abs",
            category: StdlibCategory::Math,
            description: "Absolute value of a number",
            param_count: 1,
            return_type: "int",
        },
        StdlibFunction {
            name: "pow",
            category: StdlibCategory::Math,
            description: "Raise base to exponent (base^exp)",
            param_count: 2,
            return_type: "int",
        },
        StdlibFunction {
            name: "sqrt",
            category: StdlibCategory::Math,
            description: "Square root of a number",
            param_count: 1,
            return_type: "int",
        },
        StdlibFunction {
            name: "min",
            category: StdlibCategory::Math,
            description: "Minimum of two numbers",
            param_count: 2,
            return_type: "int",
        },
        StdlibFunction {
            name: "max",
            category: StdlibCategory::Math,
            description: "Maximum of two numbers",
            param_count: 2,
            return_type: "int",
        },
        StdlibFunction {
            name: "rand",
            category: StdlibCategory::Math,
            description: "Random integer in range [0, max)",
            param_count: 1,
            return_type: "int",
        },
        StdlibFunction {
            name: "time",
            category: StdlibCategory::Time,
            description: "Current Unix timestamp in milliseconds",
            param_count: 0,
            return_type: "int",
        },
        StdlibFunction {
            name: "sleep",
            category: StdlibCategory::Time,
            description: "Sleep for specified milliseconds",
            param_count: 1,
            return_type: "void",
        },
        StdlibFunction {
            name: "hash",
            category: StdlibCategory::Crypto,
            description: "Generic hash function (defaults to keccak256)",
            param_count: 1,
            return_type: "string",
        },
        StdlibFunction {
            name: "keccak",
            category: StdlibCategory::Crypto,
            description: "Keccak-256 hash (Ethereum standard)",
            param_count: 1,
            return_type: "string",
        },
        StdlibFunction {
            name: "sha256",
            category: StdlibCategory::Crypto,
            description: "SHA-256 hash",
            param_count: 1,
            return_type: "string",
        },
    ];
    assert(r@.len() == registry().len());
    r
}

/// `name` is the name of a standard-library function.
pub open spec fn in_stdlib(name: Seq<char>) -> bool {
    exists|i: int| 0 <= i < registry().len() && (#[trigger] registry()[i]).0 == name
}

/// Index of the first registry entry named `name`.
pub open spec fn first_entry(name: Seq<char>, i: int) -> Option<int>
    decreases registry().len() - i,
    when 0 <= i
{
    if i >= registry().len() {
        None
    } else if registry()[i].0 == name {
        Some(i)
    } else {
        first_entry(name, i + 1)
    }
}

/// The entries of category `c` among the first `n` of the registry, in
/// registry order.
pub open spec fn entries_of(c: StdlibCategory, n: int) -> Seq<EntryView>
    decreases n,
    when 0 <= n <= registry().len()
{
    if n == 0 {
        seq![]
    } else if registry()[n - 1].1 == c {
        entries_of(c, n - 1).push(registry()[n - 1])
    } else {
        entries_of(c, n - 1)
    }
}

/// Names of the AI family.
pub open spec fn ai_names() -> Seq<Seq<char>> {
    seq!["ai.generate"@, "ai.embed"@, "ai.classify"@]
}

/// Names of the Web3 family.
pub open spec fn web3_names() -> Seq<Seq<char>> {
    seq!["web3.wallet"@, "web3.sign"@, "web3.verify"@, "web3.keccak"@, "web3.balance"@, "web3.send"@]
}

/// Names of the file-system family.
pub open spec fn fs_names() -> Seq<Seq<char>> {
    seq!["fs.read"@, "fs.write"@, "fs.exists"@]
}

fn in_list(name: &str, list: &Vec<&'static str>) -> (r: bool)
    ensures
        r == exists|i: int| 0 <= i < list@.len() && (#[trigger] list@[i])@ == name@,
{
    let mut i: usize = 0;
    while i < list.len()
        invariant
            i <= list@.len(),
            forall|j: int| 0 <= j < i ==> (#[trigger] list@[j])@ != name@,
        decreases list@.len() - i,
    {
        if str_eq(list[i], name) {
            return true;
        }
        i = i + 1;
    }
    false
}

/// Whether `name` is a standard-library function.
pub fn is_stdlib(name: &str) -> (r: bool)
    ensures
        r == in_stdlib(name@),
{
    let fs = stdlib_functions();
    let mut i: usize = 0;
    while i < fs.len()
        invariant
            fs@.len() == registry().len(),
            forall|j: int| 0 <= j < fs@.len() ==> #[trigger] fs@[j].view() == registry()[j],
            i <= fs@.len(),
            forall|j: int| 0 <= j < i ==> (#[trigger] registry()[j]).0 != name@,
        decreases fs@.len() - i,
    {
        if str_eq(fs[i].name, name) {
            assert(fs@[i as int].view() == registry()[i as int]);
            return true;
        }
        assert(fs@[i as int].view() == registry()[i as int]);
        i = i + 1;
    }
    false
}

/// Whether `name` belongs to the AI family.
pub fn is_ai(name: &str) -> (r: bool)
    ensures
        r == ai_names().contains(name@),
{
    let list: Vec<&'static str> = vec!["ai.generate", "ai.embed", "ai.classify"];
    let r = in_list(name, &list);
    assert(r == ai_names().contains(name@)) by {
        if r {
            let i = choose|i: int| 0 <= i < list@.len() && (#[trigger] list@[i])@ == name@;
            assert(ai_names()[i] == name@);
        } else {
            assert forall|i: int| 0 <= i < ai_names().len() implies ai_names()[i] != name@ by {
                assert(list@[i]@ == ai_names()[i]);
            }
        }
    }
    r
}

/// Whether `name` belongs to the Web3 family.
pub fn is_web3(name: &str) -> (r: bool)
    ensures
        r == web3_names().contains(name@),
{
    let list: Vec<&'static str> = vec![
        "web3.wallet",
        "web3.sign",
        "web3.verify",
        "web3.keccak",
        "web3.balance",
        "web3.send",
    ];
    let r = in_list(name, &list);
    assert(r == web3_names().contains(name@)) by {
        if r {
            let i = choose|i: int| 0 <= i < list@.len() && (#[trigger] list@[i])@ == name@;
            assert(web3_names()[i] == name@);
        } else {
            assert forall|i: int| 0 <= i < web3_names().len() implies web3_names()[i] != name@ by {
                assert(list@[i]@ == web3_names()[i]);
            }
        }
    }
    r
}

/// Whether `name` belongs to the file-system family.
pub fn is_fs_function(name: &str) -> (r: bool)
    ensures
        r == fs_names().contains(name@),
{
    let list: Vec<&'static str> = vec!["fs.read", "fs.write", "fs.exists"];
    let r = in_list(name, &list);
    assert(r == fs_names().contains(name@)) by {
        if r {
            let i = choose|i: int| 0 <= i < list@.len() && (#[trigger] list@[i])@ == name@;
            assert(fs_names()[i] == name@);
        } else {
            assert forall|i: int| 0 <= i < fs_names().len() implies fs_names()[i] != name@ by {
                assert(list@[i]@ == fs_names()[i]);
            }
        }
    }
    r
}

/// The first registry entry named `name`, if any.
pub fn get_stdlib_info(name: &str) -> (r: Option<StdlibFunction>)
    ensures
        r is None <==> first_entry(name@, 0) is None,
        r matches Some(f) ==> first_entry(name@, 0) matches Some(i) && f.view() == registry()[i],
{
    let fs = stdlib_functions();
    let mut i: usize = 0;
    while i < fs.len()
        invariant
            fs@.len() == registry().len(),
            forall|j: int| 0 <= j < fs@.len() ==> #[trigger] fs@[j].view() == registry()[j],
            i <= fs@.len(),
            first_entry(name@, 0) == first_entry(name@, i as int),
        decreases fs@.len() - i,
    {
        assert(fs@[i as int].view() == registry()[i as int]);
        if str_eq(fs[i].name, name) {
            return Some(fs[i]);
        }
        i = i + 1;
    }
    None
}

/// The entries of one category, in registry order.
pub fn get_by_category(category: StdlibCategory) -> (r: Vec<StdlibFunction>)
    ensures
        r@.len() == entries_of(category, registry().len() as int).len(),
        forall|i: int|
            0 <= i < r@.len() ==> #[trigger] r@[i].view() == entries_of(
                category,
                registry().len() as int,
            )[i],
{
    let fs = stdlib_functions();
    let mut out: Vec<StdlibFunction> = Vec::new();
    let mut i: usize = 0;
    while i < fs.len()
        invariant
            fs@.len() == registry().len(),
            forall|j: int| 0 <= j < fs@.len() ==> #[trigger] fs@[j].view() == registry()[j],
            i <= fs@.len(),
            out@.len() == entries_of(category, i as int).len(),
            forall|j: int|
                0 <= j < out@.len() ==> #[trigger] out@[j].view() == entries_of(category, i as int)[j],
        decreases fs@.len() - i,
    {
        assert(fs@[i as int].view() == registry()[i as int]);
        if fs[i].category == category {
            out.push(fs[i]);
        }
        i = i + 1;
    }
    out
}

/// The display name of a category.
pub open spec fn category_name(c: StdlibCategory) -> Seq<char> {
    match c {
        StdlibCategory::Core => "Core"@,
        StdlibCategory::Math => "Math"@,
        StdlibCategory::Time => "Time"@,
        StdlibCategory::Crypto => "Crypto"@,
        StdlibCategory::String => "String"@,
        StdlibCategory::AI => "AI"@,
    }
}

fn category_label(c: StdlibCategory) -> (r: &'static str)
    ensures
        r@ == category_name(c),
{
    match c {
        StdlibCategory::Core => "Core",
        StdlibCategory::Math => "Math",
        StdlibCategory::Time => "Time",
        StdlibCategory::Crypto => "Crypto",
        StdlibCategory::String => "String",
        StdlibCategory::AI => "AI",
    }
}

/// The documentation of one entry.
pub open spec fn entry_doc(e: EntryView) -> Seq<char> {
    "### `"@ + e.0 + "()`\n"@ + e.2 + "\n\n"@ + "**Params:** "@ + nat_text(e.3 as nat) + "\n"@
        + "**Returns:** `"@ + e.4 + "`\n\n"@
}

/// The documentation of a list of entries, in order.
pub open spec fn entries_doc(es: Seq<EntryView>) -> Seq<char>
    decreases es.len(),
{
    if es.len() == 0 {
        seq![]
    } else {
        entries_doc(es.drop_last()) + entry_doc(es.last())
    }
}

/// The documentation section of one category.
pub open spec fn section_doc(c: StdlibCategory) -> Seq<char> {
    "## "@ + category_name(c) + " Functions\n\n"@ + entries_doc(entries_of(c, registry().len() as int))
}

/// The categories that the reference documents, in order.
pub open spec fn documented_categories() -> Seq<StdlibCategory> {
    seq![
        StdlibCategory::Core,
        StdlibCategory::Math,
        StdlibCategory::Time,
        StdlibCategory::Crypto,
        StdlibCategory::AI,
    ]
}

/// The sections of the first `n` documented categories.
pub open spec fn sections_doc(n: int) -> Seq<char>
    decreases n,
    when 0 <= n <= 5
{
    if n == 0 {
        seq![]
    } else {
        sections_doc(n - 1) + section_doc(documented_categories()[n - 1])
    }
}

/// The whole reference.
pub open spec fn docs_text() -> Seq<char> {
    "# ASTRIXA Standard Library Reference\n\n"@ + "Built-in functions available in all ASTRIXA programs.\n\n"@
        + sections_doc(5)
}

/// A Markdown reference of the standard library, one section per category.
pub fn generate_docs() -> (r: String)
    ensures
        r@ == docs_text(),
{
    let mut docs = String::new();
    push_str(&mut docs, "# ASTRIXA Standard Library Reference\n\n");
    push_str(&mut docs, "Built-in functions available in all ASTRIXA programs.\n\n");
    let cats: Vec<StdlibCategory> = vec![
        StdlibCategory::Core,
        StdlibCategory::Math,
        StdlibCategory::Time,
        StdlibCategory::Crypto,
        StdlibCategory::AI,
    ];
    assert(cats@ == documented_categories());
    let ghost head = docs@;
    let mut k: usize = 0;
    while k < cats.len()
        invariant
            cats@ == documented_categories(),
            k <= 5,
            docs@ == head + sections_doc(k as int),
        decreases 5 - k,
    {
        let c = cats[k];
        let ghost before = docs@;
        push_str(&mut docs, "## ");
        push_str(&mut docs, category_label(c));
        push_str(&mut docs, " Functions\n\n");
        let ghost sec_head = docs@;
        let funcs = get_by_category(c);
        let mut i: usize = 0;
        while i < funcs.len()
            invariant
                funcs@.len() == entries_of(c, registry().len() as int).len(),
                forall|j: int|
                    0 <= j < funcs@.len() ==> #[trigger] funcs@[j].view() == entries_of(
                        c,
                        registry().len() as int,
                    )[j],
                i <= funcs@.len(),
                docs@ == sec_head + entries_doc(
                    entries_of(c, registry().len() as int).subrange(0, i as int),
                ),
            decreases funcs@.len() - i,
        {
            let f = funcs[i];
            let ghost es = entries_of(c, registry().len() as int);
            assert(f.view() == es[i as int]);
            push_str(&mut docs, "### `");
            push_str(&mut docs, f.name);
            push_str(&mut docs, "()`\n");
            push_str(&mut docs, f.description);
            push_str(&mut docs, "\n\n");
            push_str(&mut docs, "**Params:** ");
            push_nat(&mut docs, f.param_count as u128);
            push_str(&mut docs, "\n");
            push_str(&mut docs, "**Returns:** `");
            push_str(&mut docs, f.return_type);
            push_str(&mut docs, "`\n\n");
            i = i + 1;
            assert(es.subrange(0, i as int).drop_last() =~= es.subrange(0, i - 1));
            assert(docs@ =~= sec_head + entries_doc(es.subrange(0, i as int)));
        }
        assert(entries_of(c, registry().len() as int).subrange(0, i as int) =~= entries_of(
            c,
            registry().len() as int,
        ));
        k = k + 1;
        assert(docs@ =~= head + sections_doc(k as int));
    }
    docs
}

/// The call families are disjoint: no name is in two of the standard
/// library, AI, Web3 and file-system registries.
pub proof fn call_families_disjoint(name: Seq<char>)
    ensures
        in_stdlib(name) ==> !ai_names().contains(name) && !web3_names().contains(name) && !fs_names().contains(name),
        ai_names().contains(name) ==> !web3_names().contains(name) && !fs_names().contains(name),
        web3_names().contains(name) ==> !fs_names().contains(name),
{
    reveal_strlit("print");
    reveal_strlit("println");
    reveal_strlit("input");
    reveal_strlit("len");
    reveal_strlit("exit");
    reveal_strlit("abs");
    reveal_strlit("pow");
    reveal_strlit("sqrt");
    reveal_strlit("min");
    reveal_strlit("max");
    reveal_strlit("rand");
    reveal_strlit("time");
    reveal_strlit("sleep");
    reveal_strlit("hash");
    reveal_strlit("keccak");
    reveal_strlit("sha256");
    reveal_strlit("ai.generate");
    reveal_strlit("ai.embed");
    reveal_strlit("ai.classify");
    reveal_strlit("web3.wallet");
    reveal_strlit("web3.sign");
    reveal_strlit("web3.verify");
    reveal_strlit("web3.keccak");
    reveal_strlit("web3.balance");
    reveal_strlit("web3.send");
    reveal_strlit("fs.read");
    reveal_strlit("fs.write");
    reveal_strlit("fs.exists");
    if in_stdlib(name) {
        let i = choose|i: int| 0 <= i < registry().len() && (#[trigger] registry()[i]).0 == name;
        assert(!name.contains('.'));
        assert(!ai_names().contains(name)) by {
            if ai_names().contains(name) {
                let k = choose|k: int| 0 <= k < ai_names().len() && ai_names()[k] == name;
                assert(name[2] == '.');
            }
        }
        assert(!web3_names().contains(name)) by {
            if web3_names().contains(name) {
                let k = choose|k: int| 0 <= k < web3_names().len() && web3_names()[k] == name;
                assert(name[4] == '.');
            }
        }
        assert(!fs_names().contains(name)) by {
            if fs_names().contains(name) {
                let k = choose|k: int| 0 <= k < fs_names().len() && fs_names()[k] == name;
                assert(name[2] == '.');
            }
        }
    }
    if ai_names().contains(name) {
        let k = choose|k: int| 0 <= k < ai_names().len() && ai_names()[k] == name;
        assert(name[0] == 'a');
    }
    if web3_names().contains(name) {
        let k = choose|k: int| 0 <= k < web3_names().len() && web3_names()[k] == name;
        assert(name[0] == 'w');
    }
}

} // verus!
