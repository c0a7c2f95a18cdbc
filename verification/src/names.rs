//! File names: their extension, the extensions that count as audio, and the
//! order in which names are listed.

use vstd::prelude::*;
use vstd::string::StringSliceAdditionalSpecFns;

verus! {

/// The position of the last `'.'` in `name`, or -1 where it holds none.
pub open spec fn last_dot(name: Seq<char>) -> int
    decreases name.len(),
{
    if name.len() == 0 {
        -1
    } else if name.last() == '.' {
        name.len() - 1
    } else {
        last_dot(name.drop_last())
    }
}

/// The extension of a file name: what follows its last `'.'`. A name without
/// a dot has none, nor has a name whose only dot is its first character, nor
/// has the name `".."`.
pub open spec fn extension(name: Seq<char>) -> Option<Seq<char>> {
    let dot = last_dot(name);
    if dot <= 0 || name =~= seq!['.', '.'] {
        None
    } else {
        Some(name.skip(dot + 1))
    }
}

/// `last_dot` is the position of a dot after which no dot follows.
pub proof fn lemma_last_dot(name: Seq<char>)
    ensures
        -1 <= last_dot(name) < name.len(),
        last_dot(name) >= 0 ==> name[last_dot(name)] == '.',
        forall|k: int| last_dot(name) < k < name.len() ==> name[k] != '.',
    decreases name.len(),
{
    if name.len() > 0 && name.last() != '.' {
        let front = name.drop_last();
        lemma_last_dot(front);
        assert forall|k: int| last_dot(name) < k < name.len() implies name[k] != '.' by {
            if k < front.len() {
                assert(front[k] == name[k]);
            }
        }
    }
}

/// The lower-case form of an ASCII capital; any other character unchanged.
pub open spec fn ascii_lower(c: char) -> char {
    if 'A' <= c && c <= 'Z' {
        ((c as u32) + 32) as char
    } else {
        c
    }
}

/// `s` with its ASCII capitals in lower case.
pub open spec fn lowered(s: Seq<char>) -> Seq<char> {
    s.map_values(|c: char| ascii_lower(c))
}

/// The extensions of the files that are listed.
pub open spec fn audio_extensions() -> Seq<Seq<char>> {
    seq![
        seq!['m', 'p', '3'],
        seq!['w', 'a', 'v'],
        seq!['o', 'g', 'g'],
        seq!['f', 'l', 'a', 'c'],
        seq!['m', '4', 'a'],
        seq!['a', 'a', 'c'],
    ]
}

/// Whether `ext` is one of the audio extensions, whatever the case of its
/// letters.
pub open spec fn recognized(ext: Seq<char>) -> bool {
    audio_extensions().contains(lowered(ext))
}

/// Whether a file of this name is listed: it has an extension, and the
/// extension is recognized.
pub open spec fn audio_name(name: Seq<char>) -> bool {
    match extension(name) {
        Some(ext) => recognized(ext),
        None => false,
    }
}

/// Whether `a` comes strictly before `b` in the order of their bytes: at the
/// first position where they differ `a` holds the smaller byte, or `a` ends
/// there and `b` does not.
pub open spec fn bytes_before(a: Seq<u8>, b: Seq<u8>) -> bool
    decreases a.len(),
{
    if b.len() == 0 {
        false
    } else if a.len() == 0 {
        true
    } else if a[0] != b[0] {
        a[0] < b[0]
    } else {
        bytes_before(a.drop_first(), b.drop_first())
    }
}

/// Whether the name `a` is listed strictly before the name `b`: the order of
/// the bytes of their UTF-8 encodings.
pub open spec fn name_before(a: Seq<char>, b: Seq<char>) -> bool {
    bytes_before(vstd::utf8::encode_utf8(a), vstd::utf8::encode_utf8(b))
}

/// No sequence comes before itself.
pub proof fn lemma_bytes_before_irreflexive(a: Seq<u8>)
    ensures
        !bytes_before(a, a),
    decreases a.len(),
{
    if a.len() > 0 {
        lemma_bytes_before_irreflexive(a.drop_first());
    }
}

/// Of two sequences at most one comes before the other.
pub proof fn lemma_bytes_before_asymmetric(a: Seq<u8>, b: Seq<u8>)
    requires
        bytes_before(a, b),
    ensures
        !bytes_before(b, a),
    decreases a.len(),
{
    if a.len() > 0 && b.len() > 0 && a[0] == b[0] {
        lemma_bytes_before_asymmetric(a.drop_first(), b.drop_first());
    }
}

/// Of two different sequences one comes before the other.
pub proof fn lemma_bytes_before_total(a: Seq<u8>, b: Seq<u8>)
    ensures
        a == b || bytes_before(a, b) || bytes_before(b, a),
    decreases a.len(),
{
    if a.len() == 0 || b.len() == 0 {
        assert(a.len() == 0 && b.len() == 0 ==> a =~= b);
    } else if a[0] == b[0] {
        lemma_bytes_before_total(a.drop_first(), b.drop_first());
        if a.drop_first() == b.drop_first() {
            assert(a =~= seq![a[0]] + a.drop_first());
            assert(b =~= seq![b[0]] + b.drop_first());
        }
    }
}

/// Of two different names one is listed before the other.
pub proof fn lemma_names_comparable(a: Seq<char>, b: Seq<char>)
    ensures
        a == b || name_before(a, b) || name_before(b, a),
{
    let x = vstd::utf8::encode_utf8(a);
    let y = vstd::utf8::encode_utf8(b);
    lemma_bytes_before_total(x, y);
    if x == y {
        vstd::utf8::encode_utf8_decode_utf8(a);
        vstd::utf8::encode_utf8_decode_utf8(b);
    }
}

/// Where `c` is not before `b` and `b` is not before `a`, `c` is not before `a`.
pub proof fn lemma_bytes_order_transitive(a: Seq<u8>, b: Seq<u8>, c: Seq<u8>)
    requires
        !bytes_before(b, a),
        !bytes_before(c, b),
    ensures
        !bytes_before(c, a),
    decreases a.len(),
{
    if a.len() > 0 && b.len() > 0 && c.len() > 0 {
        if a[0] == b[0] && b[0] == c[0] {
            lemma_bytes_order_transitive(a.drop_first(), b.drop_first(), c.drop_first());
        }
    }
}

/// Where `a` is before `b` and `c` is not before `b`, `a` is before `c`.
pub proof fn lemma_bytes_before_extends(a: Seq<u8>, b: Seq<u8>, c: Seq<u8>)
    requires
        bytes_before(a, b),
        !bytes_before(c, b),
    ensures
        bytes_before(a, c),
    decreases a.len(),
{
    if a.len() > 0 && b.len() > 0 && c.len() > 0 {
        if a[0] == b[0] && b[0] == c[0] {
            lemma_bytes_before_extends(a.drop_first(), b.drop_first(), c.drop_first());
        }
    }
}

/// The characters of `s`, in order.
fn chars_of(s: &str) -> (v: Vec<char>)
    ensures
        v@ == s@,
{
    let mut v: Vec<char> = Vec::new();
    for c in it: s.chars()
        invariant
            it.seq() == s@,
            v@ == s@.take(it.index() as int),
    {
        v.push(c);
        assert(s@.take(it.index() + 1) =~= s@.take(it.index() as int).push(c));
    }
    assert(s@.take(s@.len() as int) =~= s@);
    v
}

/// The extension of the file name `name`, if it has one.
pub fn extension_of(name: &str) -> (r: Option<&str>)
    ensures
        match r {
            Some(ext) => extension(name@) == Some(ext@),
            None => extension(name@) is None,
        },
{
    let chars = chars_of(name);
    let n = chars.len();
    let mut i: usize = n;
    assert(name@.take(n as int) =~= name@);
    while i > 0 && chars[i - 1] != '.'
        invariant
            i <= n,
            n == chars.len(),
            chars@ == name@,
            last_dot(name@) == last_dot(name@.take(i as int)),
        decreases i,
    {
        assert(name@.take(i as int).drop_last() =~= name@.take(i - 1));
        i -= 1;
    }
    proof {
        assert(name@.take(n as int) =~= name@);
        if i > 0 {
            assert(name@.take(i as int).last() == '.');
        }
    }
    if i <= 1 {
        return None;
    }
    if n == 2 && chars[0] == '.' {
        assert(name@ =~= seq!['.', '.']);
        return None;
    }
    assert(!(name@ =~= seq!['.', '.'])) by {
        if name@ =~= seq!['.', '.'] {
            assert(name@[0] == '.');
        }
    }
    let ext = name.substring_char(i, n);
    assert(ext@ =~= name@.skip(i as int));
    Some(ext)
}

fn lower_of(c: char) -> (r: char)
    ensures
        r == ascii_lower(c),
{
    if 'A' <= c && c <= 'Z' {
        let code: u8 = c as u8;
        (code + 32) as char
    } else {
        c
    }
}

fn is_word3(v: &Vec<char>, a: char, b: char, c: char) -> (r: bool)
    ensures
        r == (v@ == seq![a, b, c]),
{
    let r = v.len() == 3 && v[0] == a && v[1] == b && v[2] == c;
    assert(r ==> v@ =~= seq![a, b, c]);
    assert(v@ == seq![a, b, c] ==> v@.len() == 3 && v@[0] == a && v@[1] == b && v@[2] == c);
    r
}

fn is_word4(v: &Vec<char>, a: char, b: char, c: char, d: char) -> (r: bool)
    ensures
        r == (v@ == seq![a, b, c, d]),
{
    let r = v.len() == 4 && v[0] == a && v[1] == b && v[2] == c && v[3] == d;
    assert(r ==> v@ =~= seq![a, b, c, d]);
    assert(v@ == seq![a, b, c, d] ==> v@.len() == 4 && v@[0] == a && v@[1] == b && v@[2] == c
        && v@[3] == d);
    r
}

/// Whether `ext` is the extension of an audio file, whatever the case of its
/// letters.
pub fn is_audio_extension(ext: &str) -> (r: bool)
    ensures
        r == recognized(ext@),
{
    let mut low: Vec<char> = Vec::new();
    for c in it: ext.chars()
        invariant
            it.seq() == ext@,
            low@ == lowered(ext@.take(it.index() as int)),
    {
        low.push(lower_of(c));
        assert(lowered(ext@.take(it.index() + 1)) =~= lowered(ext@.take(it.index() as int)).push(
            ascii_lower(c),
        ));
    }
    assert(ext@.take(ext@.len() as int) =~= ext@);
    let r = is_word3(&low, 'm', 'p', '3') || is_word3(&low, 'w', 'a', 'v') || is_word3(
        &low,
        'o',
        'g',
        'g',
    ) || is_word4(&low, 'f', 'l', 'a', 'c') || is_word3(&low, 'm', '4', 'a') || is_word3(
        &low,
        'a',
        'a',
        'c',
    );
    proof {
        let all = audio_extensions();
        assert(all.len() == 6);
        assert(all[0] == seq!['m', 'p', '3'] && all[1] == seq!['w', 'a', 'v'] && all[2] == seq![
            'o',
            'g',
            'g',
        ] && all[3] == seq!['f', 'l', 'a', 'c'] && all[4] == seq!['m', '4', 'a'] && all[5] == seq![
            'a',
            'a',
            'c',
        ]);
    }
    r
}

/// Whether a file named `name` is an audio file by its extension.
pub fn is_audio_name(name: &str) -> (r: bool)
    ensures
        r == audio_name(name@),
{
    match extension_of(name) {
        Some(ext) => is_audio_extension(ext),
        None => false,
    }
}

/// Whether the name `a` is listed strictly before the name `b`.
pub fn comes_before(a: &str, b: &str) -> (r: bool)
    ensures
        r == name_before(a@, b@),
{
    let x = a.as_bytes();
    let y = b.as_bytes();
    let mut i: usize = 0;
    assert(x@.skip(0) =~= x@ && y@.skip(0) =~= y@);
    while i < x.len() && i < y.len() && x[i] == y[i]
        invariant
            i <= x.len(),
            i <= y.len(),
            bytes_before(x@, y@) == bytes_before(x@.skip(i as int), y@.skip(i as int)),
        decreases x.len() - i,
    {
        assert(x@.skip(i as int).drop_first() =~= x@.skip(i + 1));
        assert(y@.skip(i as int).drop_first() =~= y@.skip(i + 1));
        i += 1;
    }
    if i >= y.len() {
        false
    } else if i >= x.len() {
        true
    } else {
        x[i] < y[i]
    }
}

} // verus!
