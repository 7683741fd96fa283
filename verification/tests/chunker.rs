// End-to-end tests of the syntax-aware chunker against the real grammars.

use maharajah::chunk::Chunk;
use maharajah::parser::parse_file;

fn symbols(chunks: &[Chunk]) -> Vec<&str> {
    chunks.iter().map(|c| c.symbol.as_str()).collect()
}

fn has_summary(chunks: &[Chunk]) -> bool {
    chunks.iter().any(|c| c.summary.is_some())
}

fn summary_for<'a>(chunks: &'a [Chunk], symbol: &str) -> Option<&'a str> {
    chunks.iter().find(|c| c.symbol == symbol).and_then(|c| c.summary.as_deref())
}

fn assert_summary_ok(summary: Option<&str>, symbol: &str, must_contain: &str, must_not: &[&str]) {
    let s = summary.unwrap_or_else(|| panic!("no summary for symbol '{symbol}'"));
    assert!(s.contains(must_contain), "summary for '{symbol}' should contain {must_contain:?}, got: {s:?}");
    for fragment in must_not {
        assert!(!s.contains(fragment), "summary for '{symbol}' must not contain {fragment:?}, got: {s:?}");
    }
}

fn assert_no_summary_for(chunks: &[Chunk], symbol: &str, context: &str) {
    assert!(chunks.iter().any(|c| c.symbol == symbol), "{context}: symbol {symbol:?} not found in {chunks:?}");
    for c in chunks.iter().filter(|c| c.symbol == symbol) {
        assert!(c.summary.is_none(), "{context}: non-doc comment must not become a summary for '{symbol}', got {:?}", c.summary);
    }
}

const MATH_RS: &str = "/// Adds two integers together.\n///\n/// # Examples\n/// ```\n/// assert_eq!(add(2, 3), 5);\n/// ```\npub fn add(a: i32, b: i32) -> i32 {\n    a + b\n}\n\n/// Computes the factorial of `n` recursively.\n/// Returns 1 for n <= 1.\npub fn factorial(n: u64) -> u64 {\n    if n <= 1 { 1 } else { n * factorial(n - 1) }\n}\n\n/// Returns the larger of two values using a generic bound.\npub fn max_val<T: PartialOrd>(a: T, b: T) -> T {\n    if a > b { a } else { b }\n}\n\npub fn square(x: f64) -> f64 {\n    x * x\n}\n\n/// A simple stack backed by a Vec.\npub struct Stack<T> {\n    data: Vec<T>,\n}\n\nimpl<T> Stack<T> {\n    /// Creates an empty stack.\n    pub fn new() -> Self {\n        Stack { data: Vec::new() }\n    }\n\n    /// Pushes a value onto the top of the stack.\n    pub fn push(&mut self, value: T) {\n        self.data.push(value);\n    }\n\n    /// Pops a value from the top of the stack, or None if empty.\n    pub fn pop(&mut self) -> Option<T> {\n        self.data.pop()\n    }\n\n    /// Returns true if the stack contains no elements.\n    pub fn is_empty(&self) -> bool {\n        self.data.is_empty()\n    }\n}\n";

#[test]
fn rust_example_chunks() {
    let chunks = parse_file("math.rs", MATH_RS, 40);
    let syms = symbols(&chunks);
    assert!(chunks.len() >= 5, "expected at least 5 chunks, got {}: {:?}", chunks.len(), syms);
    assert!(syms.contains(&"add"), "missing symbol 'add'");
    assert!(syms.contains(&"factorial"), "missing symbol 'factorial'");
    assert!(syms.contains(&"max_val"), "missing symbol 'max_val'");
    assert!(syms.contains(&"Stack"), "missing symbol 'Stack'");
    assert!(has_summary(&chunks), "no summaries extracted for rust example");

    assert_summary_ok(summary_for(&chunks, "add"), "add", "Adds two integers together", &["fn add", "pub fn", "-> i32"]);
    assert_summary_ok(summary_for(&chunks, "factorial"), "factorial", "factorial", &["fn factorial", "pub fn", "-> u64"]);
    assert_summary_ok(summary_for(&chunks, "Stack"), "Stack", "stack backed by a Vec", &["pub struct", "struct Stack"]);
}

#[test]
fn rust_chunks_are_line_faithful() {
    let lines: Vec<&str> = MATH_RS.lines().collect();
    let chunks = parse_file("math.rs", MATH_RS, 40);
    for c in &chunks {
        let expected = lines[c.start_line as usize..=c.end_line as usize].join("\n");
        assert_eq!(c.content, expected, "chunk content must equal its file lines");
        assert!(c.end_line - c.start_line + 1 <= 40);
    }
}

#[test]
fn oversize_chunks_are_windowed() {
    let chunks = parse_file("math.rs", MATH_RS, 3);
    for c in &chunks {
        assert!(c.end_line - c.start_line + 1 <= 3, "window exceeds the line budget: {c:?}");
    }
    let add_windows: Vec<_> = chunks.iter().filter(|c| c.symbol == "add").collect();
    assert!(add_windows.len() >= 1);
    for pair in add_windows.windows(2) {
        assert_eq!(pair[1].start_line, pair[0].start_line + 3, "window starts advance by the window size");
        assert_eq!(pair[0].summary, pair[1].summary, "windows inherit the parent's summary");
    }
}

#[test]
fn unknown_extension_yields_no_chunks() {
    let chunks = parse_file("notes.txt", "just some text\nwith lines\n", 40);
    assert!(chunks.is_empty());
}

#[test]
fn rust_add_function_chunk() {
    let content = "/// Adds two integers together.\npub fn add(a:i32,b:i32)->i32{a+b}";
    let chunks = parse_file("add.rs", content, 40);
    assert_eq!(chunks.len(), 1, "expected one chunk, got {:?}", symbols(&chunks));
    let c = &chunks[0];
    assert_eq!(c.symbol, "add");
    assert_eq!(c.summary.as_deref(), Some("Adds two integers together."));
    assert_eq!(c.start_line, 1);
    assert_eq!(c.end_line, 1);
}

#[test]
fn python_docstring_extraction() {
    let content = "def parse_args():\n    \"\"\"Parse command-line arguments.\n    Returns the namespace.\n    \"\"\"\n    pass\n";
    let chunks = parse_file("cli.py", content, 40);
    let s = summary_for(&chunks, "parse_args").expect("docstring summary");
    assert_eq!(s, "Parse command-line arguments.\nReturns the namespace.");
    for line in s.lines().skip(1).filter(|l| !l.is_empty()) {
        assert!(!line.starts_with(' '), "continuation line keeps source indentation: {line:?}");
    }
}

#[test]
fn haskell_non_doc_rejection() {
    let src = "module T where\n-- foo is busted\nfoo :: Int -> Int\nfoo x = x + 1\n";
    let chunks = parse_file("t.hs", src, 80);
    assert_no_summary_for(&chunks, "foo", "haskell plain comment");
}

#[test]
fn haskell_haddock_becomes_summary() {
    let src = "module T where\n-- | Binomial coefficient helper.\nchoose :: Int -> Int -> Int\nchoose n k = 1\n";
    let chunks = parse_file("t.hs", src, 80);
    assert_summary_ok(summary_for(&chunks, "choose"), "choose", "Binomial coefficient", &["-- |", "choose ::"]);
}

#[test]
fn non_doc_comment_does_not_become_summary() {
    {
        let src = "module T where\n-- foo apiUser _ _ | not apiUser.allowed = throwError err402\nfoo :: Int -> Int\nfoo x = x + 1\n";
        let chunks = parse_file("t.hs", src, 80);
        assert_no_summary_for(&chunks, "foo", "haskell plain -- comment");
    }
    {
        let src = "// plain implementation note, not a doc comment\nfn add(a: i32, b: i32) -> i32 { a + b }\n";
        let chunks = parse_file("t.rs", src, 80);
        assert_no_summary_for(&chunks, "add", "rust plain // comment");
    }
    {
        let src = "// plain implementation note, not javadoc\npublic static int add(int a, int b) { return a + b; }\n";
        let chunks = parse_file("t.java", src, 80);
        assert_no_summary_for(&chunks, "add", "java plain // comment");
    }
    {
        let src = "// plain implementation note, not jsdoc\nfunction add(a, b) { return a + b; }\n";
        let chunks = parse_file("t.js", src, 80);
        assert_no_summary_for(&chunks, "add", "javascript plain // comment");
    }
    {
        let src = "// plain implementation note, not jsdoc\nfunction add(a: number, b: number): number { return a + b; }\n";
        let chunks = parse_file("t.ts", src, 80);
        assert_no_summary_for(&chunks, "add", "typescript plain // comment");
    }
    {
        let src = "// plain implementation note, not scaladoc\ndef add(a: Int, b: Int): Int = a + b\n";
        let chunks = parse_file("t.scala", src, 80);
        assert_no_summary_for(&chunks, "add", "scala plain // comment");
    }
    {
        let src = "// plain implementation note, not xml doc\npublic class Widget { }\n";
        let chunks = parse_file("t.cs", src, 80);
        assert_no_summary_for(&chunks, "Widget", "csharp plain // comment");
    }
    {
        let src = "// plain implementation note, not xml doc\nlet add (a: int) (b: int) : int = a + b\n";
        let chunks = parse_file("t.fs", src, 80);
        assert_no_summary_for(&chunks, "add", "fsharp plain // comment");
    }
}

#[test]
fn go_example_chunks() {
    let src = "package words\n\n// Greet builds a greeting string for a name.\nfunc Greet(name string) string {\n\treturn \"hello \" + name\n}\n\n// Reverse flips a UTF-8 string rune by rune.\nfunc Reverse(s string) string {\n\treturn s\n}\n\n// CountWords counts the words of a line.\nfunc CountWords(s string) int {\n\treturn 0\n}\n";
    let chunks = parse_file("greet.go", src, 40);
    let syms = symbols(&chunks);
    assert!(syms.contains(&"Greet") && syms.contains(&"Reverse") && syms.contains(&"CountWords"), "missing go symbols: {syms:?}");
    assert_summary_ok(summary_for(&chunks, "Greet"), "Greet", "greeting string", &["func Greet", "string {"]);
    assert_summary_ok(summary_for(&chunks, "Reverse"), "Reverse", "UTF-8", &["func Reverse"]);
}

#[test]
fn java_example_chunks() {
    let src = "/** A 2D point with coordinates. */\npublic class Point {\n    double x;\n    double y;\n}\n";
    let chunks = parse_file("shapes.java", src, 80);
    assert_summary_ok(summary_for(&chunks, "Point"), "Point", "2D point", &["public class", "class Point", "double x"]);
}

#[test]
fn csharp_example_chunks() {
    let src = "/// <summary>\n/// A binary min-heap over integers.\n/// </summary>\npublic class MinHeap {\n}\n";
    let chunks = parse_file("collections.cs", src, 80);
    assert_summary_ok(summary_for(&chunks, "MinHeap"), "MinHeap", "min-heap", &["<summary>", "</summary>", "<", ">", "public class"]);
}

#[test]
fn scala_example_chunks() {
    let src = "/** A rational number with a numerator and denominator. */\ncase class Rational(numer: Int, denom: Int)\n\n/** Tests whether n is a perfect square. */\ndef isPerfectSquare(n: Int): Boolean = false\n";
    let chunks = parse_file("algebra.scala", src, 40);
    assert_summary_ok(summary_for(&chunks, "Rational"), "Rational", "rational number", &["/**", "*/", "case class"]);
    assert_summary_ok(summary_for(&chunks, "isPerfectSquare"), "isPerfectSquare", "perfect square", &["/**", "*/", "def isPerfectSquare"]);
}

#[test]
fn haskell_example_chunks() {
    let src = "module Combinatorics where\n\n-- | Computes the binomial coefficient n over k.\nchoose :: Integer -> Integer -> Integer\nchoose n 0 = 1\n\n-- | The n-th Fibonacci number.\nfibonacci :: Integer -> Integer\nfibonacci n = n\n";
    let chunks = parse_file("Combinatorics.hs", src, 40);
    let syms = symbols(&chunks);
    assert!(syms.contains(&"choose") && syms.contains(&"fibonacci"), "missing haskell symbols: {syms:?}");
    assert_summary_ok(summary_for(&chunks, "choose"), "choose", "binomial coefficient", &["-- |", "choose ::", "Integer ->"]);
    assert_summary_ok(summary_for(&chunks, "fibonacci"), "fibonacci", "Fibonacci number", &["-- |", "fibonacci ::"]);
}

#[test]
fn javascript_example_chunks() {
    let src = "/** Debounces a function by the given delay. */\nfunction debounce(fn, delay) {\n  return fn;\n}\n\n/** Deep-clones a plain object. */\nfunction deepClone(obj) {\n  return obj;\n}\n";
    let chunks = parse_file("dom.js", src, 40);
    assert_summary_ok(summary_for(&chunks, "debounce"), "debounce", "Debounces a function", &["/**", "*/", "function debounce"]);
    assert_summary_ok(summary_for(&chunks, "deepClone"), "deepClone", "Deep-clones", &["/**", "*/", "function deepClone"]);
}

#[test]
fn typescript_example_chunks() {
    let src = "/** Checks that a string is a well-formed email address. */\nfunction validateEmail(s: string): boolean {\n  return true;\n}\n\n/** A user with an id and a name. */\ninterface User {\n  id: number;\n  name: string;\n}\n";
    let chunks = parse_file("validation.ts", src, 40);
    assert_summary_ok(summary_for(&chunks, "validateEmail"), "validateEmail", "well-formed email", &["/**", "*/", "function validateEmail"]);
    assert_summary_ok(summary_for(&chunks, "User"), "User", "user with an id", &["/**", "*/", "interface User", "id: number"]);
}

#[test]
fn tsx_example_chunks() {
    let src = "/** A counter component with an increment button. */\nfunction Counter() {\n  return null;\n}\n\n/** Formats a number as a currency string. */\nfunction formatCurrency(n: number): string {\n  return String(n);\n}\n";
    let chunks = parse_file("components.tsx", src, 40);
    assert_summary_ok(summary_for(&chunks, "Counter"), "Counter", "counter component", &["/**", "*/", "function Counter"]);
    assert_summary_ok(summary_for(&chunks, "formatCurrency"), "formatCurrency", "currency string", &["/**", "*/", "function formatCurrency"]);
}

#[test]
fn ruby_example_chunks() {
    let src = "# Converts snake_case to CamelCase.\ndef camelize(str)\n  str\nend\n\n# A tiny LRU cache over a hash.\nclass LruCache\nend\n";
    let chunks = parse_file("text.rb", src, 40);
    assert_summary_ok(summary_for(&chunks, "camelize"), "camelize", "snake_case to CamelCase", &["def camelize", "str.split"]);
    assert_summary_ok(summary_for(&chunks, "LruCache"), "LruCache", "LRU cache", &["class LruCache", "def initialize"]);
}

#[test]
fn fsharp_example_chunks() {
    let src = "/// Computes the integer power of a base.\nlet rec pow (b: int) (e: int) : int = if e = 0 then 1 else b * pow b (e - 1)\n\n/// Computes the greatest common divisor.\nlet rec gcd (a: int) (b: int) : int = if b = 0 then a else gcd b (a % b)\n";
    let chunks = parse_file("Numerics.fs", src, 40);
    let syms = symbols(&chunks);
    assert!(syms.contains(&"pow") && syms.contains(&"gcd"), "missing fsharp symbols: {syms:?}");
    assert_summary_ok(summary_for(&chunks, "pow"), "pow", "integer power", &["///", "let rec pow", "(b: int)"]);
    // The grammar folds the doc comment of a following declaration into the
    // preceding declaration's span, so later declarations carry no summary;
    // the chunk itself must still be there.
    assert!(chunks.iter().any(|c| c.symbol == "gcd"));
}

#[test]
fn python_example_chunks() {
    let src = "def parse_args():\n    \"\"\"Parse command-line arguments.\n    Returns the namespace.\n    \"\"\"\n    pass\n\nclass RingBuffer:\n    \"\"\"A circular buffer of fixed capacity.\"\"\"\n    def __init__(self):\n        pass\n";
    let chunks = parse_file("utils.py", src, 40);
    let syms = symbols(&chunks);
    assert!(syms.contains(&"parse_args") && syms.contains(&"RingBuffer"), "missing python symbols: {syms:?}");
    assert_summary_ok(summary_for(&chunks, "parse_args"), "parse_args", "Parse command-line arguments", &["def parse_args"]);
    assert_summary_ok(summary_for(&chunks, "RingBuffer"), "RingBuffer", "circular buffer", &["class RingBuffer", "def __init__"]);
}

