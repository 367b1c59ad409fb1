use vstd::prelude::*;

verus! {

/// `String::push` appends one character to the end of the string.
pub assume_specification[ String::push ](s: &mut String, c: char)
    ensures
        final(s)@ == old(s)@.push(c),
;

/// The characters of `s`, in order.
pub fn chars_of(s: &str) -> (r: Vec<char>)
    ensures
        r@ == s@,
{
    let mut out: Vec<char> = Vec::new();
    for c in it: s.chars()
        invariant
            it.seq() == s@,
            out@ == s@.take(it.index()),
    {
        assert(s@.take(it.index() + 1) =~= s@.take(it.index()).push(c));
        out.push(c);
    }
    assert(s@.take(s@.len() as int) =~= s@);
    out
}

/// The string whose characters are `chars`, in order.
pub fn string_of(chars: &Vec<char>) -> (r: String)
    ensures
        r@ == chars@,
{
    let mut out = String::new();
    let mut i: usize = 0;
    while i < chars.len()
        invariant
            i <= chars.len(),
            out@ == chars@.take(i as int),
        decreases chars.len() - i,
    {
        assert(chars@.take(i + 1) =~= chars@.take(i as int).push(chars@[i as int]));
        out.push(chars[i]);
        i += 1;
    }
    assert(chars@.take(chars@.len() as int) =~= chars@);
    out
}

/// Whether two strings hold the same characters.
pub fn same_text(a: &str, b: &str) -> (r: bool)
    ensures
        r == (a@ == b@),
{
    let x = a.to_owned();
    let y = b.to_owned();
    x == y
}

/// The views of a sequence of strings.
pub open spec fn texts(v: Seq<String>) -> Seq<Seq<char>> {
    Seq::new(v.len(), |i: int| v[i]@)
}

/// ASCII white space: space, tab, line feed, form feed, carriage return.
pub open spec fn is_space(c: char) -> bool {
    c == ' ' || c == '\t' || c == '\n' || c == '\x0C' || c == '\r'
}

/// Whether `s` holds no comma.
pub open spec fn comma_free(s: Seq<char>) -> bool {
    forall|i: int| 0 <= i < s.len() ==> s[i] != ','
}

/// Whether `s` holds no ASCII white space.
pub open spec fn space_free(s: Seq<char>) -> bool {
    forall|i: int| 0 <= i < s.len() ==> !is_space(#[trigger] s[i])
}

/// The pieces of `s` between its commas. There is always at least one
/// piece, and a piece may be empty.
pub open spec fn fields(s: Seq<char>) -> Seq<Seq<char>>
    decreases s.len(),
{
    if s.len() == 0 {
        seq![Seq::<char>::empty()]
    } else {
        let before = fields(s.drop_last());
        if s.last() == ',' {
            before.push(Seq::<char>::empty())
        } else {
            before.drop_last().push(before.last().push(s.last()))
        }
    }
}

/// The maximal runs of characters of `s` that hold no ASCII white space,
/// in order. No run is empty.
pub open spec fn tokens(s: Seq<char>) -> Seq<Seq<char>>
    decreases s.len(),
{
    if s.len() == 0 {
        Seq::<Seq<char>>::empty()
    } else {
        let before = tokens(s.drop_last());
        if is_space(s.last()) {
            before
        } else if s.len() >= 2 && !is_space(s[s.len() - 2]) {
            before.drop_last().push(before.last().push(s.last()))
        } else {
            before.push(seq![s.last()])
        }
    }
}

/// A character that ends a number inside an attribute: a comma or ASCII
/// white space.
pub open spec fn is_separator(c: char) -> bool {
    c == ',' || is_space(c)
}

/// The maximal runs of characters of `s` that hold no separator, in order.
/// No run is empty.
pub open spec fn pieces(s: Seq<char>) -> Seq<Seq<char>>
    decreases s.len(),
{
    if s.len() == 0 {
        Seq::<Seq<char>>::empty()
    } else {
        let before = pieces(s.drop_last());
        if is_separator(s.last()) {
            before
        } else if s.len() >= 2 && !is_separator(s[s.len() - 2]) {
            before.drop_last().push(before.last().push(s.last()))
        } else {
            before.push(seq![s.last()])
        }
    }
}

/// The parts written one after another with `sep` between neighbours.
pub open spec fn join(parts: Seq<Seq<char>>, sep: char) -> Seq<char>
    decreases parts.len(),
{
    if parts.len() == 0 {
        Seq::<char>::empty()
    } else if parts.len() == 1 {
        parts[0]
    } else {
        join(parts.drop_last(), sep).push(sep) + parts.last()
    }
}

/// Whether `c` is ASCII white space.
pub fn is_space_char(c: char) -> (r: bool)
    ensures
        r == is_space(c),
{
    c == ' ' || c == '\t' || c == '\n' || c == '\x0C' || c == '\r'
}

/// Splits `s` at every comma.
pub fn split_fields(s: &str) -> (r: Vec<String>)
    ensures
        texts(r@) == fields(s@),
{
    let mut done: Vec<String> = Vec::new();
    let mut current = String::new();
    assert(texts(done@).push(current@) =~= fields(s@.take(0)));
    for c in it: s.chars()
        invariant
            it.seq() == s@,
            texts(done@).push(current@) == fields(s@.take(it.index())),
    {
        let ghost i = it.index();
        proof {
            assert(s@.take(i + 1).drop_last() =~= s@.take(i));
            assert(s@.take(i + 1).last() == c);
            let before = fields(s@.take(i));
            assert(before.last() == current@);
            assert(before.drop_last() =~= texts(done@));
        }
        if c == ',' {
            done.push(current);
            current = String::new();
            assert(texts(done@).push(current@) =~= fields(s@.take(i + 1)));
        } else {
            current.push(c);
            assert(texts(done@).push(current@) =~= fields(s@.take(i + 1)));
        }
    }
    assert(s@.take(s@.len() as int) =~= s@);
    done.push(current);
    assert(texts(done@) =~= fields(s@));
    done
}

/// Splits `s` at ASCII white space, leaving out empty pieces.
pub fn split_tokens(s: &str) -> (r: Vec<String>)
    ensures
        texts(r@) == tokens(s@),
{
    let mut done: Vec<String> = Vec::new();
    let mut current = String::new();
    let mut open = false;
    for c in it: s.chars()
        invariant
            it.seq() == s@,
            open <==> it.index() >= 1 && !is_space(s@[it.index() - 1]),
            open ==> texts(done@).push(current@) == tokens(s@.take(it.index())),
            !open ==> texts(done@) == tokens(s@.take(it.index())),
    {
        let ghost i = it.index();
        proof {
            assert(s@.take(i + 1).drop_last() =~= s@.take(i));
            assert(s@.take(i + 1).last() == c);
            let before = tokens(s@.take(i));
            if open {
                assert(before.last() == current@);
                assert(before.drop_last() =~= texts(done@));
                assert(s@.take(i + 1)[i - 1] == s@[i - 1]);
            }
        }
        if is_space_char(c) {
            if open {
                done.push(current);
                current = String::new();
                open = false;
                assert(texts(done@) =~= tokens(s@.take(i + 1)));
            }
        } else {
            if !open {
                current = String::new();
                open = true;
            }
            current.push(c);
            assert(texts(done@).push(current@) =~= tokens(s@.take(i + 1)));
        }
    }
    assert(s@.take(s@.len() as int) =~= s@);
    if open {
        done.push(current);
    }
    assert(texts(done@) =~= tokens(s@));
    done
}

/// Splits `s` at commas and ASCII white space, leaving out empty pieces.
pub fn split_pieces(s: &str) -> (r: Vec<String>)
    ensures
        texts(r@) == pieces(s@),
{
    let mut done: Vec<String> = Vec::new();
    let mut current = String::new();
    let mut open = false;
    for c in it: s.chars()
        invariant
            it.seq() == s@,
            open <==> it.index() >= 1 && !is_separator(s@[it.index() - 1]),
            open ==> texts(done@).push(current@) == pieces(s@.take(it.index())),
            !open ==> texts(done@) == pieces(s@.take(it.index())),
    {
        let ghost i = it.index();
        proof {
            assert(s@.take(i + 1).drop_last() =~= s@.take(i));
            assert(s@.take(i + 1).last() == c);
            let before = pieces(s@.take(i));
            if open {
                assert(before.last() == current@);
                assert(before.drop_last() =~= texts(done@));
                assert(s@.take(i + 1)[i - 1] == s@[i - 1]);
            }
        }
        if c == ',' || is_space_char(c) {
            if open {
                done.push(current);
                current = String::new();
                open = false;
                assert(texts(done@) =~= pieces(s@.take(i + 1)));
            }
        } else {
            if !open {
                current = String::new();
                open = true;
            }
            current.push(c);
            assert(texts(done@).push(current@) =~= pieces(s@.take(i + 1)));
        }
    }
    assert(s@.take(s@.len() as int) =~= s@);
    if open {
        done.push(current);
    }
    assert(texts(done@) =~= pieces(s@));
    done
}

/// Appends `text` to `out`.
pub fn push_text(out: &mut String, text: &str)
    ensures
        final(out)@ == old(out)@ + text@,
{
    for c in it: text.chars()
        invariant
            it.seq() == text@,
            out@ == old(out)@ + text@.take(it.index()),
    {
        assert(text@.take(it.index() + 1) =~= text@.take(it.index()).push(c));
        out.push(c);
        assert(out@ =~= old(out)@ + text@.take(it.index() + 1));
    }
    assert(text@.take(text@.len() as int) =~= text@);
}

/// The decimal digit for a value below ten.
pub open spec fn digit(v: int) -> char {
    ('0' as int + v) as char
}

/// The decimal text of a count, without leading zeros.
pub open spec fn count_text(n: u8) -> Seq<char> {
    if n < 10 {
        seq![digit(n as int)]
    } else if n < 100 {
        seq![digit(n as int / 10), digit(n as int % 10)]
    } else {
        seq![digit(n as int / 100), digit(n as int / 10 % 10), digit(n as int % 10)]
    }
}

fn digit_char(v: u8) -> (r: char)
    requires
        v < 10,
    ensures
        r == digit(v as int),
{
    (48u8 + v) as char
}

/// Writes a count in decimal, without leading zeros.
pub fn write_count(n: u8) -> (r: String)
    ensures
        r@ == count_text(n),
{
    let mut out = String::new();
    if n >= 100 {
        out.push(digit_char(n / 100));
    }
    if n >= 10 {
        out.push(digit_char(n / 10 % 10));
    }
    out.push(digit_char(n % 10));
    assert(out@ =~= count_text(n));
    out
}

/// A count is read back from its decimal text.
pub proof fn lemma_parse_count_text(n: u8)
    ensures
        parse_count(count_text(n)) == Some(n),
{
    let t = count_text(n);
    assert(t[0] != '+');
    assert(all_digits(t));
    reveal_with_fuel(decimal_value, 4);
    if n < 10 {
        assert(t.drop_last() =~= Seq::<char>::empty());
    } else if n < 100 {
        assert(t.drop_last() =~= seq![digit(n as int / 10)]);
        assert(t.drop_last().drop_last() =~= Seq::<char>::empty());
    } else {
        assert(t.drop_last() =~= seq![digit(n as int / 100), digit(n as int / 10 % 10)]);
        assert(t.drop_last().drop_last() =~= seq![digit(n as int / 100)]);
        assert(t.drop_last().drop_last().drop_last() =~= Seq::<char>::empty());
    }
}

proof fn lemma_fields_append(s: Seq<char>, t: Seq<char>)
    requires
        comma_free(t),
    ensures
        fields(s).len() >= 1,
        fields(s + t) == fields(s).drop_last().push(fields(s).last() + t),
    decreases t.len(),
{
    lemma_fields_some(s);
    let f = fields(s);
    if t.len() == 0 {
        assert(s + t =~= s);
        assert(f.last() + t =~= f.last());
        assert(f.drop_last().push(f.last()) =~= f);
    } else {
        lemma_fields_append(s, t.drop_last());
        assert((s + t).drop_last() =~= s + t.drop_last());
        assert((s + t).last() == t.last());
        assert(t[t.len() - 1] != ',');
        let before = fields(s + t.drop_last());
        assert(before.drop_last() =~= f.drop_last());
        assert((f.last() + t.drop_last()).push(t.last()) =~= f.last() + t);
    }
}

proof fn lemma_fields_some(s: Seq<char>)
    ensures
        fields(s).len() >= 1,
    decreases s.len(),
{
    if s.len() > 0 {
        lemma_fields_some(s.drop_last());
    }
}

/// Splitting at commas undoes joining with commas, where no part holds a
/// comma.
pub proof fn lemma_fields_of_join(parts: Seq<Seq<char>>)
    requires
        parts.len() >= 1,
        forall|i: int| 0 <= i < parts.len() ==> comma_free(#[trigger] parts[i]),
    ensures
        fields(join(parts, ',')) == parts,
    decreases parts.len(),
{
    let empty = Seq::<char>::empty();
    if parts.len() == 1 {
        lemma_fields_append(empty, parts[0]);
        assert(empty + parts[0] =~= parts[0]);
        assert(fields(empty) =~= seq![empty]);
        assert(seq![empty].drop_last().push(empty + parts[0]) =~= parts);
    } else {
        let init = parts.drop_last();
        lemma_fields_of_join(init);
        let head = join(init, ',').push(',');
        assert(head.drop_last() =~= join(init, ','));
        assert(fields(head) == init.push(empty));
        lemma_fields_append(head, parts.last());
        assert(init.push(empty).drop_last() =~= init);
        assert(empty + parts.last() =~= parts.last());
        assert(init.push(parts.last()) =~= parts);
    }
}

proof fn lemma_tokens_append(s: Seq<char>, w: Seq<char>)
    requires
        w.len() >= 1,
        space_free(w),
        s.len() == 0 || is_space(s.last()),
    ensures
        tokens(s + w) == tokens(s).push(w),
    decreases w.len(),
{
    let all = s + w;
    assert(all.last() == w.last());
    assert(!is_space(w[w.len() - 1]));
    if w.len() == 1 {
        assert(all.drop_last() =~= s);
        assert(seq![w.last()] =~= w);
        if s.len() > 0 {
            assert(all[all.len() - 2] == s.last());
        }
    } else {
        lemma_tokens_append(s, w.drop_last());
        assert(all.drop_last() =~= s + w.drop_last());
        assert(all[all.len() - 2] == w[w.len() - 2]);
        assert(!is_space(w[w.len() - 2]));
        let before = tokens(s + w.drop_last());
        assert(before.drop_last() =~= tokens(s));
        assert(w.drop_last().push(w.last()) =~= w);
    }
}

/// Splitting at white space undoes joining with single spaces, where no
/// part is empty or holds white space.
pub proof fn lemma_tokens_of_join(parts: Seq<Seq<char>>)
    requires
        forall|i: int| 0 <= i < parts.len() ==> (#[trigger] parts[i]).len() >= 1 && space_free(parts[i]),
    ensures
        tokens(join(parts, ' ')) == parts,
    decreases parts.len(),
{
    let empty = Seq::<char>::empty();
    if parts.len() == 0 {
        assert(parts =~= Seq::<Seq<char>>::empty());
    } else if parts.len() == 1 {
        lemma_tokens_append(empty, parts[0]);
        assert(empty + parts[0] =~= parts[0]);
        assert(Seq::<Seq<char>>::empty().push(parts[0]) =~= parts);
    } else {
        let init = parts.drop_last();
        lemma_tokens_of_join(init);
        let head = join(init, ' ').push(' ');
        assert(head.drop_last() =~= join(init, ' '));
        assert(tokens(head) == init);
        lemma_tokens_append(head, parts.last());
        assert(init.push(parts.last()) =~= parts);
    }
}

/// Joining parts without white space by a separator that is no white
/// space gives a text without white space, which is not empty where the
/// last part is not.
pub proof fn lemma_join_space_free(parts: Seq<Seq<char>>, sep: char)
    requires
        !is_space(sep),
        forall|i: int| 0 <= i < parts.len() ==> space_free(#[trigger] parts[i]),
    ensures
        space_free(join(parts, sep)),
        parts.len() >= 1 ==> join(parts, sep).len() >= parts.last().len(),
    decreases parts.len(),
{
    if parts.len() >= 2 {
        lemma_join_space_free(parts.drop_last(), sep);
        let head = join(parts.drop_last(), sep).push(sep);
        let all = head + parts.last();
        assert forall|i: int| 0 <= i < all.len() implies !is_space(#[trigger] all[i]) by {
            if i < head.len() - 1 {
                assert(all[i] == join(parts.drop_last(), sep)[i]);
            } else if i == head.len() - 1 {
                assert(all[i] == sep);
            } else {
                assert(all[i] == parts.last()[i - head.len()]);
            }
        }
    }
}

/// The pieces of `s` that are complete: all of them, but for the last one
/// where `s` does not end in a separator.
pub open spec fn closed_pieces(s: Seq<char>) -> Seq<Seq<char>> {
    if s.len() > 0 && !is_separator(s.last()) {
        pieces(s).drop_last()
    } else {
        pieces(s)
    }
}

/// Whether `s` is not empty and ends in a character that is no separator.
pub open spec fn ends_open(s: Seq<char>) -> bool {
    s.len() > 0 && !is_separator(s.last())
}

proof fn lemma_pieces_step(q: Seq<char>, c: char)
    ensures
        is_separator(c) ==> pieces(q.push(c)) == pieces(q) && closed_pieces(q.push(c)) == pieces(q),
        !is_separator(c) ==> closed_pieces(q.push(c)) == closed_pieces(q) && pieces(
            q.push(c),
        ).len() >= 1 && pieces(q.push(c)).last() == (if ends_open(q) {
            pieces(q).last().push(c)
        } else {
            seq![c]
        }),
        ends_open(q) ==> pieces(q).len() >= 1,
{
    let v = q.push(c);
    assert(v.drop_last() =~= q);
    assert(v.last() == c);
    if q.len() > 0 {
        assert(v[v.len() - 2] == q.last());
    }
    if !is_separator(c) {
        if ends_open(q) {
            assert(pieces(v).drop_last() =~= pieces(q).drop_last());
        } else {
            assert(pieces(v).drop_last() =~= pieces(q));
        }
    }
}

proof fn lemma_closed_or_last(s: Seq<char>, x: Seq<char>)
    ensures
        closed_pieces(s).contains(x) ==> pieces(s).contains(x),
        pieces(s).contains(x) ==> closed_pieces(s).contains(x) || (ends_open(s) && pieces(s).len()
            >= 1 && x == pieces(s).last()),
{
    if ends_open(s) {
        let p = pieces(s);
        if closed_pieces(s).contains(x) {
            let k = choose|k: int| 0 <= k < p.drop_last().len() && p.drop_last()[k] == x;
            assert(p[k] == x);
        }
        if p.contains(x) {
            let k = choose|k: int| 0 <= k < p.len() && p[k] == x;
            if k < p.len() - 1 {
                assert(p.drop_last()[k] == x);
            }
        }
    }
}

/// What holds of the fields of `s` and its pieces: a field before the last
/// one that is not empty and has no white space is a complete piece; the
/// last field, if it is such, is the last piece; and the last field is
/// empty only at the start or behind a comma.
proof fn lemma_fields_and_pieces(s: Seq<char>)
    ensures
        fields(s).len() >= 1,
        forall|k: int|
            0 <= k < fields(s).len() - 1 && (#[trigger] fields(s)[k]).len() > 0 && space_free(
                fields(s)[k],
            ) ==> closed_pieces(s).contains(fields(s)[k]),
        fields(s).last().len() > 0 && space_free(fields(s).last()) ==> ends_open(s) && pieces(
            s,
        ).len() >= 1 && pieces(s).last() == fields(s).last(),
        fields(s).last().len() == 0 ==> s.len() == 0 || s.last() == ',',
        comma_free(fields(s).last()),
    decreases s.len(),
{
    if s.len() > 0 {
        let q = s.drop_last();
        let c = s.last();
        assert(q.push(c) =~= s);
        lemma_fields_and_pieces(q);
        lemma_pieces_step(q, c);
        let f = fields(q);
        let g = fields(s);
        if c == ',' {
            assert forall|k: int|
                0 <= k < g.len() - 1 && (#[trigger] g[k]).len() > 0 && space_free(
                    g[k],
                ) implies closed_pieces(s).contains(g[k]) by {
                assert(g[k] == f[k]);
                if k < f.len() - 1 {
                    lemma_closed_or_last(q, f[k]);
                } else {
                    assert(pieces(q)[pieces(q).len() - 1] == f[k]);
                }
            }
        } else {
            let last = f.last().push(c);
            assert(g.last() == last);
            assert forall|k: int|
                0 <= k < g.len() - 1 && (#[trigger] g[k]).len() > 0 && space_free(
                    g[k],
                ) implies closed_pieces(s).contains(g[k]) by {
                assert(g[k] == f[k]);
                if is_separator(c) {
                    lemma_closed_or_last(q, f[k]);
                }
            }
            if last.len() > 0 && space_free(last) {
                assert(!is_space(last[last.len() - 1]));
                assert(!is_separator(c));
                if f.last().len() > 0 {
                    assert forall|i: int| 0 <= i < f.last().len() implies !is_space(
                        #[trigger] f.last()[i],
                    ) by {
                        assert(last[i] == f.last()[i]);
                    }
                } else {
                    assert(f.last() =~= Seq::<char>::empty());
                    assert(last =~= seq![c]);
                }
            }
            assert forall|i: int| 0 <= i < last.len() implies last[i] != ',' by {
                if i < f.last().len() {
                    assert(last[i] == f.last()[i]);
                }
            }
        }
    }
}

/// A text without a comma is its own and only field.
pub proof fn lemma_fields_of_plain(s: Seq<char>)
    requires
        comma_free(s),
    ensures
        fields(s) == seq![s],
{
    lemma_fields_of_join(seq![s]);
}

/// A field of `s` that is not empty and has no white space is a piece of
/// `s`.
pub proof fn lemma_field_is_piece(s: Seq<char>, t: Seq<char>)
    requires
        fields(s).contains(t),
        t.len() > 0,
        space_free(t),
    ensures
        pieces(s).contains(t),
{
    lemma_fields_and_pieces(s);
    let f = fields(s);
    let k = choose|k: int| 0 <= k < f.len() && f[k] == t;
    if k < f.len() - 1 {
        lemma_closed_or_last(s, t);
    } else {
        assert(pieces(s)[pieces(s).len() - 1] == t);
    }
}

/// What holds of the tokens of `s` and its pieces: the pieces of a token
/// that is complete are complete pieces of `s`; the last token, where `s`
/// does not end in white space, ends as `s` does, its complete pieces are
/// complete pieces of `s`, and its last piece is the last piece of `s`.
proof fn lemma_tokens_and_pieces(s: Seq<char>)
    ensures
        s.len() > 0 && !is_space(s.last()) ==> tokens(s).len() >= 1 && tokens(s).last().len() >= 1
            && tokens(s).last().last() == s.last(),
        forall|k: int, x: Seq<char>|
            0 <= k < tokens(s).len() - (if s.len() > 0 && !is_space(s.last()) {
                1int
            } else {
                0int
            }) && pieces(#[trigger] tokens(s)[k]).contains(x) ==> #[trigger] closed_pieces(
                s,
            ).contains(x),
        s.len() > 0 && !is_space(s.last()) ==> forall|x: Seq<char>|
            closed_pieces(tokens(s).last()).contains(x) ==> #[trigger] closed_pieces(s).contains(x),
        ends_open(s) ==> pieces(tokens(s).last()).len() >= 1 && pieces(s).len() >= 1 && pieces(
            tokens(s).last(),
        ).last() == pieces(s).last(),
    decreases s.len(),
{
    if s.len() > 0 {
        let q = s.drop_last();
        let c = s.last();
        assert(q.push(c) =~= s);
        lemma_tokens_and_pieces(q);
        lemma_pieces_step(q, c);
        let open_q = q.len() > 0 && !is_space(q.last());
        if q.len() > 0 {
            assert(s[s.len() - 2] == q.last());
        }
        let old_tokens = tokens(q);
        let new_tokens = tokens(s);
        if is_space(c) {
            assert(new_tokens == old_tokens);
            assert forall|k: int, x: Seq<char>|
                0 <= k < new_tokens.len() && pieces(#[trigger] new_tokens[k]).contains(
                    x,
                ) implies #[trigger] closed_pieces(s).contains(x) by {
                if open_q && k == old_tokens.len() - 1 {
                    let t = old_tokens.last();
                    lemma_closed_or_last(t, x);
                    if closed_pieces(t).contains(x) {
                        assert(closed_pieces(q).contains(x));
                        lemma_closed_or_last(q, x);
                    } else {
                        assert(ends_open(q));
                        assert(pieces(q)[pieces(q).len() - 1] == x);
                    }
                } else {
                    assert(closed_pieces(q).contains(x));
                    lemma_closed_or_last(q, x);
                }
            }
        } else {
            let t = if open_q {
                old_tokens.last().push(c)
            } else {
                seq![c]
            };
            assert(new_tokens.last() == t);
            let done = if open_q {
                old_tokens.drop_last()
            } else {
                old_tokens
            };
            assert(new_tokens.drop_last() =~= done);
            // Complete tokens stay complete, and so do their pieces.
            assert forall|k: int, x: Seq<char>|
                0 <= k < new_tokens.len() - 1 && pieces(#[trigger] new_tokens[k]).contains(
                    x,
                ) implies #[trigger] closed_pieces(s).contains(x) by {
                assert(new_tokens[k] == done[k]);
                assert(done[k] == old_tokens[k]);
                assert(closed_pieces(q).contains(x));
                if is_separator(c) {
                    lemma_closed_or_last(q, x);
                }
            }
            // The last token.
            let before = if open_q {
                old_tokens.last()
            } else {
                Seq::<char>::empty()
            };
            assert(t =~= before.push(c));
            lemma_pieces_step(before, c);
            assert forall|x: Seq<char>| closed_pieces(t).contains(x) implies #[trigger] closed_pieces(
                s,
            ).contains(x) by {
                if is_separator(c) {
                    // closed_pieces(t) is pieces(before).
                    if open_q {
                        lemma_closed_or_last(before, x);
                        if closed_pieces(before).contains(x) {
                            assert(closed_pieces(q).contains(x));
                            lemma_closed_or_last(q, x);
                        } else {
                            assert(ends_open(q));
                            assert(pieces(q)[pieces(q).len() - 1] == x);
                        }
                    } else {
                        assert(pieces(before) =~= Seq::<Seq<char>>::empty());
                    }
                } else {
                    // closed_pieces(t) is closed_pieces(before).
                    if open_q {
                        assert(closed_pieces(q).contains(x));
                    } else {
                        assert(closed_pieces(before) =~= Seq::<Seq<char>>::empty());
                    }
                }
            }
            if !is_separator(c) {
                if open_q {
                    assert(ends_open(before) == ends_open(q));
                } else {
                    assert(!ends_open(before));
                    assert(!ends_open(q));
                }
            }
        }
    }
}

/// A piece of a token of `s` is a piece of `s`.
pub proof fn lemma_piece_of_token(s: Seq<char>, token: Seq<char>, x: Seq<char>)
    requires
        tokens(s).contains(token),
        pieces(token).contains(x),
    ensures
        pieces(s).contains(x),
{
    lemma_tokens_and_pieces(s);
    let list = tokens(s);
    let k = choose|k: int| 0 <= k < list.len() && list[k] == token;
    let open = s.len() > 0 && !is_space(s.last());
    if open && k == list.len() - 1 {
        lemma_closed_or_last(token, x);
        if closed_pieces(token).contains(x) {
            assert(closed_pieces(s).contains(x));
            lemma_closed_or_last(s, x);
        } else {
            assert(token.last() == s.last());
            assert(ends_open(s));
            assert(pieces(s)[pieces(s).len() - 1] == x);
        }
    } else {
        assert(pieces(list[k]).contains(x));
        assert(closed_pieces(s).contains(x));
        lemma_closed_or_last(s, x);
    }
}

/// Whether every character of `s` is a decimal digit.
pub open spec fn all_digits(s: Seq<char>) -> bool {
    forall|i: int| 0 <= i < s.len() ==> '0' <= #[trigger] s[i] <= '9'
}

/// The number that a run of decimal digits writes.
pub open spec fn decimal_value(digits: Seq<char>) -> nat
    decreases digits.len(),
{
    if digits.len() == 0 {
        0
    } else {
        (10 * decimal_value(digits.drop_last()) + (digits.last() as int - '0' as int)) as nat
    }
}

/// The count that `text` writes: an optional `+`, then one or more decimal
/// digits whose value is at most 255.
pub open spec fn parse_count(text: Seq<char>) -> Option<u8> {
    let digits = if text.len() > 0 && text[0] == '+' {
        text.skip(1)
    } else {
        text
    };
    if digits.len() > 0 && all_digits(digits) && decimal_value(digits) <= 255 {
        Some(decimal_value(digits) as u8)
    } else {
        None
    }
}

proof fn lemma_decimal_value_grows(digits: Seq<char>, k: int)
    requires
        all_digits(digits),
        0 <= k <= digits.len(),
    ensures
        decimal_value(digits.take(k)) <= decimal_value(digits),
    decreases digits.len() - k,
{
    if k == digits.len() {
        assert(digits.take(k) =~= digits);
    } else {
        lemma_decimal_value_grows(digits.drop_last(), k);
        assert(digits.drop_last().take(k) =~= digits.take(k));
        assert('0' <= digits.last() <= '9');
    }
}

/// Reads a count of at most 255 from its decimal text.
pub fn read_count(s: &str) -> (r: Option<u8>)
    ensures
        r == parse_count(s@),
{
    let chars = chars_of(s);
    let n = chars.len();
    let start: usize = if n > 0 && chars[0] == '+' {
        1
    } else {
        0
    };
    if start == n {
        return None;
    }
    let ghost digits = s@.skip(start as int);
    let mut value: u16 = 0;
    let mut i: usize = start;
    assert(digits.take(0) =~= Seq::<char>::empty());
    while i < n
        invariant
            chars@ == s@,
            n == chars.len(),
            start <= i <= n,
            start < n,
            start == (if s@.len() > 0 && s@[0] == '+' {
                1int
            } else {
                0int
            }),
            digits == s@.skip(start as int),
            all_digits(digits.take(i - start)),
            value == decimal_value(digits.take(i - start)),
            value <= 255,
        decreases n - i,
    {
        let c = chars[i];
        let ghost k = i - start;
        assert(digits[k] == c);
        if !('0' <= c && c <= '9') {
            assert(s@.skip(0) =~= s@);
            return None;
        }
        let d: u16 = (c as u32 - '0' as u32) as u16;
        let next: u16 = value * 10 + d;
        proof {
            assert(digits.take(k + 1).drop_last() =~= digits.take(k));
            assert(digits.take(k + 1).last() == c);
            assert(next == decimal_value(digits.take(k + 1)));
            assert(all_digits(digits.take(k + 1))) by {
                assert forall|j: int| 0 <= j < k + 1 implies '0' <= #[trigger] digits.take(
                    k + 1,
                )[j] <= '9' by {
                    if j < k {
                        assert(digits.take(k)[j] == digits.take(k + 1)[j]);
                    }
                }
            }
        }
        if next > 255 {
            proof {
                assert(s@.skip(0) =~= s@);
                if all_digits(digits) {
                    lemma_decimal_value_grows(digits, k + 1);
                }
            }
            return None;
        }
        value = next;
        i += 1;
    }
    assert(digits.take(digits.len() as int) =~= digits);
    assert(s@.skip(0) =~= s@);
    Some(value as u8)
}

} // verus!
