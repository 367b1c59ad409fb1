use vstd::prelude::*;

use crate::scalar::Scalar;
use crate::text::comma_free;
use crate::text::fields;
use crate::text::is_space_char;
use crate::text::lemma_field_is_piece;
use crate::text::lemma_fields_of_plain;
use crate::text::lemma_piece_of_token;
use crate::text::pieces;
use crate::text::space_free;
use crate::text::tokens;

verus! {

/// Whether `text` can stand for a number inside an attribute: it is not
/// empty and holds neither a comma nor ASCII white space, the two
/// separators of point lists.
pub open spec fn is_numeral(text: Seq<char>) -> bool {
    text.len() > 0 && comma_free(text) && space_free(text)
}

/// A table of numerals: pairs of a decimal text and the scalar it denotes.
///
/// Decoding reads a number by looking its text up here, and encoding writes
/// a scalar as the first text that the table pairs with it. The table never
/// pairs one text with two scalars, so what is written is read back as the
/// same scalar.
pub struct Numerals {
    entries: Vec<(String, Scalar)>,
}

impl View for Numerals {
    type V = Seq<(Seq<char>, Scalar)>;

    closed spec fn view(&self) -> Seq<(Seq<char>, Scalar)> {
        Seq::new(self.entries@.len(), |i: int| (self.entries@[i].0@, self.entries@[i].1))
    }
}

impl Numerals {
    /// Every text is a numeral, and no text occurs twice.
    pub open spec fn wf(&self) -> bool {
        &&& forall|i: int| 0 <= i < self@.len() ==> is_numeral(#[trigger] self@[i].0)
        &&& forall|i: int, j: int|
            0 <= i < self@.len() && 0 <= j < self@.len() && i != j ==> (#[trigger] self@[i]).0 != (
            #[trigger] self@[j]).0
    }

    /// Whether the table holds `text`.
    pub open spec fn has_text(&self, text: Seq<char>) -> bool {
        exists|i: int| 0 <= i < self@.len() && (#[trigger] self@[i]).0 == text
    }

    /// Whether the table holds a text for `value`.
    pub open spec fn has_value(&self, value: Scalar) -> bool {
        exists|i: int| 0 <= i < self@.len() && (#[trigger] self@[i]).1 == value
    }

    /// Whether entry `i` is the first one that holds `text`.
    pub open spec fn first_text(&self, text: Seq<char>, i: int) -> bool {
        &&& 0 <= i < self@.len()
        &&& self@[i].0 == text
        &&& forall|j: int| 0 <= j < i ==> (#[trigger] self@[j]).0 != text
    }

    /// The scalar that `text` denotes: that of the first entry holding the
    /// text.
    pub open spec fn reading(&self, text: Seq<char>) -> Option<Scalar> {
        if self.has_text(text) {
            let i = choose|i: int| self.first_text(text, i);
            Some(self@[i].1)
        } else {
            None
        }
    }

    /// Whether entry `i` is the first one that holds `value`.
    pub open spec fn first_with(&self, value: Scalar, i: int) -> bool {
        &&& 0 <= i < self@.len()
        &&& self@[i].1 == value
        &&& forall|j: int| 0 <= j < i ==> (#[trigger] self@[j]).1 != value
    }

    /// The text that stands for `value`: that of the first entry holding it.
    pub open spec fn notation(&self, value: Scalar) -> Option<Seq<char>> {
        if self.has_value(value) {
            let i = choose|i: int| self.first_with(value, i);
            Some(self@[i].0)
        } else {
            None
        }
    }

    /// The text that the table writes for a scalar it holds.
    pub open spec fn written(&self, value: Scalar) -> Seq<char> {
        self.notation(value).unwrap()
    }

    /// An empty table.
    pub fn new() -> (r: Numerals)
        ensures
            r@.len() == 0,
            r.wf(),
    {
        Numerals { entries: Vec::new() }
    }

    /// The number of entries.
    pub fn len(&self) -> (r: usize)
        ensures
            r == self@.len(),
    {
        self.entries.len()
    }

    /// Adds the pair of `text` and `value` at the end, unless `text` is no
    /// numeral or the table holds it already. Says whether the pair was
    /// added.
    pub fn insert(&mut self, text: &str, value: Scalar) -> (added: bool)
        ensures
            added == (is_numeral(text@) && !old(self).has_text(text@)),
            added ==> final(self)@ == old(self)@.push((text@, value)),
            !added ==> final(self)@ == old(self)@,
            old(self).wf() ==> final(self).wf(),
    {
        if !check_numeral(text) {
            return false;
        }
        if self.read(text).is_some() {
            return false;
        }
        let ghost before = self@;
        self.entries.push((text.to_owned(), value));
        assert(self@ =~= before.push((text@, value)));
        proof {
            assert forall|i: int| 0 <= i < before.len() implies (#[trigger] before[i]).0
                != text@ by {
                if before[i].0 == text@ {
                    assert(old(self).has_text(text@));
                }
            }
        }
        true
    }

    /// The scalar that `text` denotes, if the table holds the text.
    pub fn read(&self, text: &str) -> (r: Option<Scalar>)
        ensures
            r == self.reading(text@),
    {
        let key = text.to_owned();
        let mut i: usize = 0;
        while i < self.entries.len()
            invariant
                i <= self.entries.len(),
                key@ == text@,
                forall|j: int| 0 <= j < i ==> (#[trigger] self@[j]).0 != text@,
            decreases self.entries.len() - i,
        {
            if self.entries[i].0 == key {
                proof {
                    assert(self@[i as int].0 == text@);
                    assert(self.first_text(text@, i as int));
                    let k = choose|k: int| self.first_text(text@, k);
                    assert(k == i) by {
                        if k < i {
                            assert(self@[k].0 != text@);
                        } else if i < k {
                            assert(self@[i as int].0 != text@);
                        }
                    }
                }
                return Some(self.entries[i].1);
            }
            i += 1;
        }
        None
    }

    /// The text that stands for `value`, if the table holds one.
    pub fn write(&self, value: Scalar) -> (r: Option<String>)
        ensures
            match r {
                Some(t) => self.notation(value) == Some(t@),
                None => self.notation(value) is None,
            },
    {
        let mut i: usize = 0;
        while i < self.entries.len()
            invariant
                i <= self.entries.len(),
                forall|j: int| 0 <= j < i ==> (#[trigger] self@[j]).1 != value,
            decreases self.entries.len() - i,
        {
            if self.entries[i].1 == value {
                proof {
                    assert(self@[i as int].1 == value);
                    assert(self.first_with(value, i as int));
                    let k = choose|k: int| self.first_with(value, k);
                    assert(k == i) by {
                        if k < i {
                            assert(self@[k].1 != value);
                        } else if i < k {
                            assert(self@[i as int].1 != value);
                        }
                    }
                }
                return Some(self.entries[i].0.clone());
            }
            i += 1;
        }
        None
    }
}

/// Whether `text` is a numeral.
pub fn check_numeral(text: &str) -> (r: bool)
    ensures
        r == is_numeral(text@),
{
    let mut seen = false;
    for c in it: text.chars()
        invariant
            it.seq() == text@,
            seen == (it.index() > 0),
            comma_free(text@.take(it.index())),
            space_free(text@.take(it.index())),
    {
        if c == ',' || is_space_char(c) {
            assert(text@[it.index()] == c);
            return false;
        }
        assert(text@.take(it.index() + 1) =~= text@.take(it.index()).push(c));
        seen = true;
    }
    assert(text@.take(text@.len() as int) =~= text@);
    seen
}

/// Whether two tables read every piece of `value` alike.
pub open spec fn alike(a: Numerals, b: Numerals, value: Seq<char>) -> bool {
    forall|t: Seq<char>| #[trigger] pieces(value).contains(t) ==> a.reading(t) == b.reading(t)
}

/// A table reads nothing but numerals.
pub proof fn lemma_reads_numerals(numerals: Numerals, text: Seq<char>)
    requires
        numerals.wf(),
        !is_numeral(text),
    ensures
        numerals.reading(text) is None,
{
}

/// Two tables that read the pieces of a value alike read the value alike,
/// and so each of its fields and each field of each of its tokens.
pub proof fn lemma_alike(a: Numerals, b: Numerals, value: Seq<char>)
    requires
        a.wf(),
        b.wf(),
        alike(a, b, value),
    ensures
        a.reading(value) == b.reading(value),
        forall|t: Seq<char>| #[trigger] fields(value).contains(t) ==> a.reading(t) == b.reading(t),
        forall|token: Seq<char>, t: Seq<char>|
            tokens(value).contains(token) && #[trigger] fields(token).contains(t) ==> a.reading(t)
                == b.reading(t),
{
    assert forall|t: Seq<char>| #[trigger] fields(value).contains(t) implies a.reading(t)
        == b.reading(t) by {
        if is_numeral(t) {
            lemma_field_is_piece(value, t);
        } else {
            lemma_reads_numerals(a, t);
            lemma_reads_numerals(b, t);
        }
    }
    if is_numeral(value) {
        lemma_fields_of_plain(value);
        assert(seq![value][0] == value);
        assert(fields(value).contains(value));
    } else {
        lemma_reads_numerals(a, value);
        lemma_reads_numerals(b, value);
    }
    assert forall|token: Seq<char>, t: Seq<char>|
        tokens(value).contains(token) && #[trigger] fields(token).contains(t) implies a.reading(t)
        == b.reading(t) by {
        if is_numeral(t) {
            lemma_field_is_piece(token, t);
            lemma_piece_of_token(value, token, t);
        } else {
            lemma_reads_numerals(a, t);
            lemma_reads_numerals(b, t);
        }
    }
}

/// What the table writes for a scalar, it reads back as that scalar; and
/// what it writes is a numeral.
pub proof fn lemma_read_written(numerals: Numerals, value: Scalar)
    requires
        numerals.wf(),
        numerals.has_value(value),
    ensures
        numerals.notation(value) is Some,
        is_numeral(numerals.notation(value).unwrap()),
        numerals.reading(numerals.notation(value).unwrap()) == Some(value),
{
    lemma_first_exists(numerals, value, numerals@.len() as int);
    let i = choose|i: int| numerals.first_with(value, i);
    let text = numerals@[i].0;
    assert(numerals.has_text(text));
    assert(numerals.first_text(text, i));
    let k = choose|k: int| numerals.first_text(text, k);
    assert(k == i);
}

proof fn lemma_first_exists(numerals: Numerals, value: Scalar, n: int)
    requires
        0 <= n <= numerals@.len(),
        exists|i: int| 0 <= i < n && (#[trigger] numerals@[i]).1 == value,
    ensures
        exists|i: int| numerals.first_with(value, i),
    decreases n,
{
    let i = choose|i: int| 0 <= i < n && (#[trigger] numerals@[i]).1 == value;
    if exists|j: int| 0 <= j < i && (#[trigger] numerals@[j]).1 == value {
        lemma_first_exists(numerals, value, i);
    } else {
        assert(numerals.first_with(value, i));
    }
}

} // verus!
