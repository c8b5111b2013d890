//! Places in source files, and the order that they are kept in: by path, and within one path
//! from the last line to the first.
use crate::text::to_lowercase;
use vstd::prelude::*;

verus! {

/// A place in the sources: a path in lower case and a line.
pub type Place = (Seq<char>, u32);

/// The lexicographic order of byte texts.
pub open spec fn bytes_less(a: Seq<u8>, b: Seq<u8>) -> bool
    decreases a.len(),
{
    b.len() > 0 && (a.len() == 0 || a[0] < b[0] || (a[0] == b[0] && bytes_less(
        a.drop_first(),
        b.drop_first(),
    )))
}

/// The order of paths: lexicographic by their UTF-8 bytes.
pub open spec fn path_less(a: Seq<char>, b: Seq<char>) -> bool {
    bytes_less(vstd::utf8::encode_utf8(a), vstd::utf8::encode_utf8(b))
}

/// The order of places: by path, and within one path later lines come first.
pub open spec fn place_less(a: Place, b: Place) -> bool {
    path_less(a.0, b.0) || (a.0 == b.0 && a.1 > b.1)
}

proof fn lemma_bytes_less_irreflexive(a: Seq<u8>)
    ensures
        !bytes_less(a, a),
    decreases a.len(),
{
    if a.len() > 0 {
        lemma_bytes_less_irreflexive(a.drop_first());
    }
}

proof fn lemma_bytes_less_transitive(a: Seq<u8>, b: Seq<u8>, c: Seq<u8>)
    requires
        bytes_less(a, b),
        bytes_less(b, c),
    ensures
        bytes_less(a, c),
    decreases a.len(),
{
    if a.len() > 0 && b.len() > 0 && c.len() > 0 && a[0] == b[0] && b[0] == c[0] {
        lemma_bytes_less_transitive(a.drop_first(), b.drop_first(), c.drop_first());
    }
}

proof fn lemma_bytes_less_total(a: Seq<u8>, b: Seq<u8>)
    ensures
        a == b || bytes_less(a, b) || bytes_less(b, a),
    decreases a.len(),
{
    if a.len() == 0 {
        assert(b.len() == 0 ==> a =~= b);
    } else if b.len() > 0 && a[0] == b[0] {
        lemma_bytes_less_total(a.drop_first(), b.drop_first());
        if a.drop_first() == b.drop_first() {
            assert(a =~= seq![a[0]] + a.drop_first());
            assert(b =~= seq![b[0]] + b.drop_first());
        }
    }
}

/// Texts of the same length, of which one is nowhere larger than the other, are in that order.
proof fn lemma_bytes_pointwise(a: Seq<u8>, b: Seq<u8>)
    requires
        a.len() == b.len(),
        forall|i: int| 0 <= i < a.len() ==> a[i] <= b[i],
    ensures
        !bytes_less(b, a),
    decreases a.len(),
{
    if a.len() > 0 {
        assert(a[0] <= b[0]);
        assert forall|i: int| 0 <= i < a.drop_first().len() implies a.drop_first()[i]
            <= b.drop_first()[i] by {
            assert(a[i + 1] <= b[i + 1]);
        }
        lemma_bytes_pointwise(a.drop_first(), b.drop_first());
    }
}

/// ASCII lower case keeps the length of the bytes of a text, and makes no byte smaller.
proof fn lemma_lower_bytes(s: Seq<char>)
    ensures
        vstd::utf8::encode_utf8(s).len() == vstd::utf8::encode_utf8(
            crate::text::ascii_lower(s),
        ).len(),
        forall|i: int|
            0 <= i < vstd::utf8::encode_utf8(s).len() ==> vstd::utf8::encode_utf8(s)[i]
                <= vstd::utf8::encode_utf8(crate::text::ascii_lower(s))[i],
    decreases s.len(),
{
    let low = crate::text::ascii_lower(s);
    if s.len() > 0 {
        let rest = s.drop_first();
        assert(low.drop_first() =~= crate::text::ascii_lower(rest));
        lemma_lower_bytes(rest);
        let a = vstd::utf8::encode_scalar(s[0] as u32);
        let b = vstd::utf8::encode_scalar(low[0] as u32);
        assert(vstd::utf8::encode_utf8(s) == a + vstd::utf8::encode_utf8(rest));
        assert(vstd::utf8::encode_utf8(low) == b + vstd::utf8::encode_utf8(low.drop_first()));
        assert(low[0] == crate::text::ascii_lower_char(s[0]));
        if 'A' <= s[0] && s[0] <= 'Z' {
            let c = s[0] as u32;
            let d = low[0] as u32;
            assert(d == c + 32);
            assert(vstd::utf8::leading_byte_width_1(c) <= vstd::utf8::leading_byte_width_1(d))
                by (bit_vector)
                requires
                    65 <= c <= 90,
                    d == c + 32,
            ;
            assert(a =~= seq![vstd::utf8::leading_byte_width_1(c)]);
            assert(b =~= seq![vstd::utf8::leading_byte_width_1(d)]);
        }
        assert forall|i: int|
            0 <= i < vstd::utf8::encode_utf8(s).len() implies vstd::utf8::encode_utf8(s)[i]
            <= vstd::utf8::encode_utf8(low)[i] by {
            if i >= a.len() {
                let j = i - a.len();
                assert(vstd::utf8::encode_utf8(rest)[j] <= vstd::utf8::encode_utf8(
                    crate::text::ascii_lower(rest),
                )[j]);
            }
        }
    } else {
        assert(low =~= s);
    }
}

/// No text comes behind its ASCII lower case.
pub proof fn lemma_not_above_lower(s: Seq<char>)
    ensures
        !path_less(crate::text::ascii_lower(s), s),
{
    lemma_lower_bytes(s);
    lemma_bytes_pointwise(
        vstd::utf8::encode_utf8(s),
        vstd::utf8::encode_utf8(crate::text::ascii_lower(s)),
    );
}

proof fn lemma_path_bytes_injective(a: Seq<char>, b: Seq<char>)
    requires
        vstd::utf8::encode_utf8(a) == vstd::utf8::encode_utf8(b),
    ensures
        a == b,
{
    vstd::utf8::encode_utf8_decode_utf8(a);
    vstd::utf8::encode_utf8_decode_utf8(b);
}

/// The order of places is strict: no place comes before itself.
pub proof fn law_place_order_irreflexive(a: Place)
    ensures
        !place_less(a, a),
{
    lemma_bytes_less_irreflexive(vstd::utf8::encode_utf8(a.0));
}

/// The order of places is transitive.
pub proof fn law_place_order_transitive(a: Place, b: Place, c: Place)
    requires
        place_less(a, b),
        place_less(b, c),
    ensures
        place_less(a, c),
{
    if path_less(a.0, b.0) && path_less(b.0, c.0) {
        lemma_bytes_less_transitive(
            vstd::utf8::encode_utf8(a.0),
            vstd::utf8::encode_utf8(b.0),
            vstd::utf8::encode_utf8(c.0),
        );
    }
}

/// The order of places is total: of two different places one comes before the other.
pub proof fn law_place_order_total(a: Place, b: Place)
    ensures
        a == b || place_less(a, b) || place_less(b, a),
{
    lemma_bytes_less_total(vstd::utf8::encode_utf8(a.0), vstd::utf8::encode_utf8(b.0));
    if vstd::utf8::encode_utf8(a.0) == vstd::utf8::encode_utf8(b.0) {
        lemma_path_bytes_injective(a.0, b.0);
    }
}

/// How two places stand to each other.
#[derive(Debug, Clone, Copy, PartialEq, Eq, Structural)]
pub enum Standing {
    Before,
    Same,
    After,
}

/// A line of a source file.
#[derive(Debug)]
pub struct SourceRef {
    file_path: String,
    line: u32,
}

impl View for SourceRef {
    type V = Place;

    closed spec fn view(&self) -> Place {
        (self.file_path@, self.line)
    }
}

impl Clone for SourceRef {
    fn clone(&self) -> (r: Self)
        ensures
            r@ == self@,
    {
        Self { file_path: self.file_path.clone(), line: self.line }
    }
}

fn compare_bytes(a: &[u8], b: &[u8]) -> (r: Standing)
    ensures
        r == Standing::Before <==> bytes_less(a@, b@),
        r == Standing::After <==> bytes_less(b@, a@),
        r == Standing::Same <==> a@ == b@,
{
    let mut i: usize = 0;
    proof {
        assert(a@.skip(0) =~= a@);
        assert(b@.skip(0) =~= b@);
        lemma_bytes_less_irreflexive(a@);
    }
    while i < a.len() && i < b.len()
        invariant
            i <= a@.len(),
            i <= b@.len(),
            a@.take(i as int) == b@.take(i as int),
            bytes_less(a@, b@) == bytes_less(a@.skip(i as int), b@.skip(i as int)),
            bytes_less(b@, a@) == bytes_less(b@.skip(i as int), a@.skip(i as int)),
        decreases a@.len() - i,
    {
        proof {
            assert(a@.skip(i as int).drop_first() =~= a@.skip(i + 1));
            assert(b@.skip(i as int).drop_first() =~= b@.skip(i + 1));
            assert(a@ == b@ ==> a@[i as int] == b@[i as int]);
        }
        if a[i] < b[i] {
            return Standing::Before;
        }
        if b[i] < a[i] {
            return Standing::After;
        }
        proof {
            assert(a@.take(i + 1) =~= a@.take(i as int).push(a@[i as int]));
            assert(b@.take(i + 1) =~= b@.take(i as int).push(b@[i as int]));
        }
        i = i + 1;
    }
    if i < b.len() {
        Standing::Before
    } else if i < a.len() {
        Standing::After
    } else {
        proof {
            assert(a@.take(i as int) =~= a@);
            assert(b@.take(i as int) =~= b@);
        }
        Standing::Same
    }
}

impl SourceRef {
    /// The place at `line` of the file at `file_path`, whatever its letter case.
    pub fn new(file_path: &str, line: u32) -> (r: Self)
        ensures
            r@ == (crate::text::lower(file_path@), line),
    {
        Self::new_unchecked(to_lowercase(file_path), line)
    }

    /// The place at `line` of `file_path`, which is in lower case already.
    pub fn new_unchecked(file_path: String, line: u32) -> (r: Self)
        ensures
            r@ == (file_path@, line),
    {
        Self { file_path, line }
    }

    /// The path, in lower case.
    pub fn file_path(&self) -> (r: &str)
        ensures
            r@ == self@.0,
    {
        self.file_path.as_str()
    }

    /// The line.
    pub fn line(&self) -> (r: u32)
        ensures
            r == self@.1,
    {
        self.line
    }

    /// How this place stands to `other`.
    pub fn compare(&self, other: &Self) -> (r: Standing)
        ensures
            r == Standing::Before <==> place_less(self@, other@),
            r == Standing::After <==> place_less(other@, self@),
            r == Standing::Same <==> self@ == other@,
    {
        proof {
            law_place_order_irreflexive(self@);
            law_place_order_total(self@, other@);
            lemma_bytes_less_irreflexive(vstd::utf8::encode_utf8(self@.0));
            if vstd::utf8::encode_utf8(self@.0) == vstd::utf8::encode_utf8(other@.0) {
                lemma_path_bytes_injective(self@.0, other@.0);
            }
        }
        match compare_bytes(self.file_path.as_str().as_bytes(), other.file_path.as_str().as_bytes()) {
            Standing::Before => Standing::Before,
            Standing::After => Standing::After,
            Standing::Same => {
                if self.line > other.line {
                    Standing::Before
                } else if self.line < other.line {
                    Standing::After
                } else {
                    Standing::Same
                }
            },
        }
    }
}

impl PartialEq for SourceRef {
    fn eq(&self, other: &Self) -> (r: bool) {
        self.line == other.line && self.file_path == other.file_path
    }
}

impl vstd::std_specs::cmp::PartialEqSpecImpl for SourceRef {
    open spec fn obeys_eq_spec() -> bool {
        true
    }

    open spec fn eq_spec(&self, other: &Self) -> bool {
        self@ == other@
    }
}

impl Eq for SourceRef {

}

impl PartialOrd for SourceRef {
    fn partial_cmp(&self, other: &Self) -> (r: Option<core::cmp::Ordering>) {
        match self.compare(other) {
            Standing::Before => Some(core::cmp::Ordering::Less),
            Standing::Same => Some(core::cmp::Ordering::Equal),
            Standing::After => Some(core::cmp::Ordering::Greater),
        }
    }
}

impl vstd::std_specs::cmp::PartialOrdSpecImpl for SourceRef {
    open spec fn obeys_partial_cmp_spec() -> bool {
        true
    }

    open spec fn partial_cmp_spec(&self, other: &Self) -> Option<core::cmp::Ordering> {
        if place_less(self@, other@) {
            Some(core::cmp::Ordering::Less)
        } else if self@ == other@ {
            Some(core::cmp::Ordering::Equal)
        } else {
            Some(core::cmp::Ordering::Greater)
        }
    }
}

} // verus!
