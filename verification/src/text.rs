//! Byte and name comparisons, and the small string operations that the rest
//! of the library is written with.
use vstd::prelude::*;
use vstd::utf8::*;

verus! {

broadcast use vstd::string::group_string_axioms;

/// `a` and `b` agree on their first `k` bytes, and at `k` they part with `a`
/// on the smaller side: either `a` ends there, or its next byte is smaller.
pub open spec fn parts_below(a: Seq<u8>, b: Seq<u8>, k: int) -> bool {
    &&& 0 <= k <= a.len()
    &&& k < b.len()
    &&& forall|i: int| 0 <= i < k ==> a[i] == b[i]
    &&& (k == a.len() || a[k] < b[k])
}

/// Lexicographic order on byte strings.
pub open spec fn bytes_lt(a: Seq<u8>, b: Seq<u8>) -> bool {
    exists|k: int| parts_below(a, b, k)
}

/// The order of directory entries: by the UTF-8 bytes of their names.
pub open spec fn name_lt(a: Seq<char>, b: Seq<char>) -> bool {
    bytes_lt(encode_utf8(a), encode_utf8(b))
}

/// Byte order is irreflexive.
pub proof fn bytes_lt_irreflexive(a: Seq<u8>)
    ensures
        !bytes_lt(a, a),
{
}

/// Byte order is transitive.
pub proof fn bytes_lt_transitive(a: Seq<u8>, b: Seq<u8>, c: Seq<u8>)
    requires
        bytes_lt(a, b),
        bytes_lt(b, c),
    ensures
        bytes_lt(a, c),
{
    let j = choose|k: int| parts_below(a, b, k);
    let k = choose|k: int| parts_below(b, c, k);
    if j <= k {
        assert(parts_below(a, c, j));
    } else {
        assert(parts_below(a, c, k));
    }
}

/// Names compare as a strict order: no name is below itself.
pub proof fn name_lt_irreflexive(a: Seq<char>)
    ensures
        !name_lt(a, a),
{
    bytes_lt_irreflexive(encode_utf8(a));
}

/// Names compare as a strict order: the order is transitive.
pub proof fn name_lt_transitive(a: Seq<char>, b: Seq<char>, c: Seq<char>)
    requires
        name_lt(a, b),
        name_lt(b, c),
    ensures
        name_lt(a, c),
{
    bytes_lt_transitive(encode_utf8(a), encode_utf8(b), encode_utf8(c));
}

/// Two strings with the same UTF-8 bytes are the same string.
pub proof fn utf8_injective(a: Seq<char>, b: Seq<char>)
    requires
        encode_utf8(a) == encode_utf8(b),
    ensures
        a == b,
{
    encode_utf8_decode_utf8(a);
    encode_utf8_decode_utf8(b);
}

/// Byte order is total: of two byte strings one is below the other, or they
/// are the same.
pub proof fn bytes_lt_total(a: Seq<u8>, b: Seq<u8>)
    ensures
        bytes_lt(a, b) || bytes_lt(b, a) || a == b,
    decreases a.len(),
{
    if a.len() == 0 {
        if b.len() == 0 {
            assert(a =~= b);
        } else {
            assert(parts_below(a, b, 0));
        }
    } else if b.len() == 0 {
        assert(parts_below(b, a, 0));
    } else if a[0] < b[0] {
        assert(parts_below(a, b, 0));
    } else if b[0] < a[0] {
        assert(parts_below(b, a, 0));
    } else {
        let a1 = a.drop_first();
        let b1 = b.drop_first();
        bytes_lt_total(a1, b1);
        if bytes_lt(a1, b1) {
            let k = choose|k: int| parts_below(a1, b1, k);
            assert forall|i: int| 0 <= i < k + 1 implies a[i] == b[i] by {
                if i > 0 {
                    assert(a1[i - 1] == b1[i - 1]);
                }
            }
            assert(parts_below(a, b, k + 1));
        } else if bytes_lt(b1, a1) {
            let k = choose|k: int| parts_below(b1, a1, k);
            assert forall|i: int| 0 <= i < k + 1 implies a[i] == b[i] by {
                if i > 0 {
                    assert(a1[i - 1] == b1[i - 1]);
                }
            }
            assert(parts_below(b, a, k + 1));
        } else {
            assert(a =~= seq![a[0]] + a1);
            assert(b =~= seq![b[0]] + b1);
        }
    }
}

/// Of two names one is below the other, or they are the same.
pub proof fn name_lt_total(a: Seq<char>, b: Seq<char>)
    ensures
        name_lt(a, b) || name_lt(b, a) || a == b,
{
    bytes_lt_total(encode_utf8(a), encode_utf8(b));
    if encode_utf8(a) == encode_utf8(b) {
        utf8_injective(a, b);
    }
}

/// How two byte strings or names compare.
#[derive(Clone, Copy, Debug, PartialEq, Eq, Structural)]
pub enum Relation {
    Below,
    Same,
    Above,
}

/// Compare two byte strings lexicographically.
pub fn compare_bytes(a: &[u8], b: &[u8]) -> (r: Relation)
    ensures
        r is Below <==> bytes_lt(a@, b@),
        r is Same <==> a@ == b@,
        r is Above <==> bytes_lt(b@, a@),
{
    let mut i: usize = 0;
    while i < a.len() && i < b.len()
        invariant
            i <= a.len(),
            i <= b.len(),
            forall|j: int| 0 <= j < i ==> a@[j] == b@[j],
        decreases a.len() - i,
    {
        if a[i] < b[i] {
            proof {
                assert(parts_below(a@, b@, i as int));
                lemma_asymmetric(a@, b@);
            }
            return Relation::Below;
        }
        if b[i] < a[i] {
            proof {
                assert(parts_below(b@, a@, i as int));
                lemma_asymmetric(b@, a@);
            }
            return Relation::Above;
        }
        i = i + 1;
    }
    if i < b.len() {
        proof {
            assert(parts_below(a@, b@, i as int));
            lemma_asymmetric(a@, b@);
        }
        Relation::Below
    } else if i < a.len() {
        proof {
            assert(parts_below(b@, a@, i as int));
            lemma_asymmetric(b@, a@);
        }
        Relation::Above
    } else {
        proof {
            assert(a@ =~= b@);
            bytes_lt_irreflexive(a@);
        }
        Relation::Same
    }
}

proof fn lemma_asymmetric(a: Seq<u8>, b: Seq<u8>)
    requires
        bytes_lt(a, b),
    ensures
        !bytes_lt(b, a),
        a != b,
{
    bytes_lt_irreflexive(a);
    if bytes_lt(b, a) {
        bytes_lt_transitive(a, b, a);
    }
}

/// Compare two names in directory order.
pub fn compare_names(a: &str, b: &str) -> (r: Relation)
    ensures
        r is Below <==> name_lt(a@, b@),
        r is Same <==> a@ == b@,
        r is Above <==> name_lt(b@, a@),
{
    let r = compare_bytes(a.as_bytes(), b.as_bytes());
    proof {
        if encode_utf8(a@) == encode_utf8(b@) {
            utf8_injective(a@, b@);
        }
    }
    r
}

/// Whether two strings are equal.
pub fn same_str(a: &str, b: &str) -> (r: bool)
    ensures
        r == (a@ == b@),
{
    matches!(compare_names(a, b), Relation::Same)
}

/// Whether two byte strings are equal.
pub fn same_bytes(a: &[u8], b: &[u8]) -> (r: bool)
    ensures
        r == (a@ == b@),
{
    matches!(compare_bytes(a, b), Relation::Same)
}

/// The lowercase hexadecimal digit of a number below sixteen.
pub open spec fn hex_char(n: int) -> char {
    if n < 10 {
        (n + 48) as char
    } else {
        (n + 87) as char
    }
}

/// Two lowercase hexadecimal digits per byte.
pub open spec fn hex(bytes: Seq<u8>) -> Seq<char> {
    Seq::new(
        2 * bytes.len(),
        |i: int|
            if i % 2 == 0 {
                hex_char(bytes[i / 2] as int / 16)
            } else {
                hex_char(bytes[i / 2] as int % 16)
            },
    )
}

fn digit_str(n: u8) -> (s: &'static str)
    requires
        n < 16,
    ensures
        s@ == seq![hex_char(n as int)],
{
    proof {
        reveal_strlit("0");
        reveal_strlit("1");
        reveal_strlit("2");
        reveal_strlit("3");
        reveal_strlit("4");
        reveal_strlit("5");
        reveal_strlit("6");
        reveal_strlit("7");
        reveal_strlit("8");
        reveal_strlit("9");
        reveal_strlit("a");
        reveal_strlit("b");
        reveal_strlit("c");
        reveal_strlit("d");
        reveal_strlit("e");
        reveal_strlit("f");
    }
    match n {
        0 => "0",
        1 => "1",
        2 => "2",
        3 => "3",
        4 => "4",
        5 => "5",
        6 => "6",
        7 => "7",
        8 => "8",
        9 => "9",
        10 => "a",
        11 => "b",
        12 => "c",
        13 => "d",
        14 => "e",
        _ => "f",
    }
}

/// Hex-encode bytes: two lowercase digits for each.
pub fn hex_encode(bytes: &[u8]) -> (s: String)
    ensures
        s@ == hex(bytes@),
{
    let mut s = String::new();
    let mut i: usize = 0;
    while i < bytes.len()
        invariant
            i <= bytes.len(),
            s@ == hex(bytes@.take(i as int)),
        decreases bytes.len() - i,
    {
        let ghost before = s@;
        s.append(digit_str(bytes[i] / 16));
        s.append(digit_str(bytes[i] % 16));
        proof {
            let shorter = bytes@.take(i as int);
            let longer = bytes@.take(i + 1);
            assert forall|j: int| 0 <= j < hex(longer).len()
                implies s@[j] == #[trigger] hex(longer)[j] by {
                if j < 2 * i {
                    assert(hex(shorter)[j] == hex(longer)[j]);
                }
            }
            assert(s@ =~= hex(longer));
        }
        i = i + 1;
    }
    assert(bytes@.take(i as int) =~= bytes@);
    s
}

/// Hex text determines the bytes it was made from.
pub proof fn hex_injective(a: Seq<u8>, b: Seq<u8>)
    requires
        hex(a) == hex(b),
    ensures
        a == b,
{
    assert(hex(a).len() == 2 * a.len());
    assert(hex(b).len() == 2 * b.len());
    assert forall|i: int| 0 <= i < a.len() implies a[i] == b[i] by {
        assert(hex(a)[2 * i] == hex(b)[2 * i]);
        assert(hex(a)[2 * i + 1] == hex(b)[2 * i + 1]);
        assert((2 * i) / 2 == i && (2 * i + 1) / 2 == i);
        assert((2 * i) % 2 == 0 && (2 * i + 1) % 2 == 1);
        assert(hex(a)[2 * i] == hex_char(a[i] as int / 16));
        assert(hex(b)[2 * i] == hex_char(b[i] as int / 16));
        assert(hex(a)[2 * i + 1] == hex_char(a[i] as int % 16));
        assert(hex(b)[2 * i + 1] == hex_char(b[i] as int % 16));
        lemma_hex_char_injective(a[i] as int / 16, b[i] as int / 16);
        lemma_hex_char_injective(a[i] as int % 16, b[i] as int % 16);
    }
    assert(a =~= b);
}

proof fn lemma_hex_char_injective(m: int, n: int)
    requires
        0 <= m < 16,
        0 <= n < 16,
        hex_char(m) == hex_char(n),
    ensures
        m == n,
{
    assert(hex_char(m) as int == if m < 10 { m + 48 } else { m + 87 });
    assert(hex_char(n) as int == if n < 10 { n + 48 } else { n + 87 });
}

/// Decimal digits of a number, most significant first.
pub open spec fn decimal(n: nat) -> Seq<char>
    decreases n,
{
    if n < 10 {
        seq![hex_char(n as int)]
    } else {
        decimal(n / 10).push(hex_char((n % 10) as int))
    }
}

/// Write a number in decimal.
pub fn decimal_str(n: u64) -> (s: String)
    ensures
        s@ == decimal(n as nat),
    decreases n,
{
    if n < 10 {
        let s = digit_str(n as u8).to_owned();
        s
    } else {
        let mut s = decimal_str(n / 10);
        s.append(digit_str((n % 10) as u8));
        assert(s@ =~= decimal(n as nat));
        s
    }
}

/// Join two strings.
pub fn concat2(a: &str, b: &str) -> (s: String)
    ensures
        s@ == a@ + b@,
{
    let mut s = a.to_owned();
    s.append(b);
    s
}

/// Join three strings.
pub fn concat3(a: &str, b: &str, c: &str) -> (s: String)
    ensures
        s@ == a@ + b@ + c@,
{
    let mut s = a.to_owned();
    s.append(b);
    s.append(c);
    s
}

/// A path below a directory, by the Unix rule: an absolute name stands for
/// itself, and the separator is written once.
pub open spec fn joined(dir: Seq<char>, name: Seq<char>) -> Seq<char> {
    if name.len() > 0 && name[0] == '/' {
        name
    } else if dir.len() == 0 || dir.last() == '/' {
        dir + name
    } else {
        dir + seq!['/'] + name
    }
}

/// Join a name onto a directory path.
pub fn join_path(dir: &str, name: &str) -> (s: String)
    ensures
        s@ == joined(dir@, name@),
{
    let n = name.unicode_len();
    if n > 0 && name.get_char(0) == '/' {
        return name.to_owned();
    }
    let d = dir.unicode_len();
    let mut s = dir.to_owned();
    if d > 0 && dir.get_char(d - 1) != '/' {
        proof {
            reveal_strlit("/");
        }
        s.append("/");
        assert("/"@ =~= seq!['/']);
    }
    s.append(name);
    s
}

/// Copy a byte slice into a vector.
pub fn copy_bytes(bytes: &[u8]) -> (v: Vec<u8>)
    ensures
        v@ == bytes@,
{
    let mut v: Vec<u8> = Vec::new();
    let mut i: usize = 0;
    while i < bytes.len()
        invariant
            i <= bytes.len(),
            v@ == bytes@.take(i as int),
        decreases bytes.len() - i,
    {
        v.push(bytes[i]);
        i = i + 1;
        assert(v@ =~= bytes@.take(i as int));
    }
    assert(bytes@.take(i as int) =~= bytes@);
    v
}

/// The text in an optional string.
pub open spec fn text_in(s: Option<String>) -> Option<Seq<char>> {
    match s {
        Some(text) => Some(text@),
        None => None,
    }
}

} // verus!
