//! Byte-level text utilities shared by the envelope codec and the content
//! parser: whitespace trimming, splitting a byte stream into lines, and the
//! inverse concatenation of lines.
use vstd::prelude::*;

verus! {

/// The newline byte that terminates every line of an envelope.
pub const NEWLINE: u8 = 10;

/// ASCII whitespace, as trimmed from marker lines.
pub open spec fn is_ws(b: u8) -> bool {
    b == 32 || b == 9 || b == 10 || b == 11 || b == 12 || b == 13
}

/// Bytes with leading whitespace removed.
pub open spec fn trim_front(s: Seq<u8>) -> Seq<u8>
    decreases s.len(),
{
    if s.len() > 0 && is_ws(s[0]) {
        trim_front(s.drop_first())
    } else {
        s
    }
}

/// Bytes with trailing whitespace removed.
pub open spec fn trim_back(s: Seq<u8>) -> Seq<u8>
    decreases s.len(),
{
    if s.len() > 0 && is_ws(s.last()) {
        trim_back(s.drop_last())
    } else {
        s
    }
}

/// Bytes with surrounding whitespace removed.
pub open spec fn trim_spec(s: Seq<u8>) -> Seq<u8> {
    trim_back(trim_front(s))
}

/// The lines of `s` split at each newline byte, `cur` being the partial line
/// already read. A final fragment without a terminator still counts as a line;
/// terminator bytes are not part of any line.
pub open spec fn lines_from(s: Seq<u8>, cur: Seq<u8>) -> Seq<Seq<u8>>
    decreases s.len(),
{
    if s.len() == 0 {
        if cur.len() == 0 {
            Seq::empty()
        } else {
            seq![cur]
        }
    } else if s[0] == NEWLINE {
        seq![cur] + lines_from(s.drop_first(), Seq::empty())
    } else {
        lines_from(s.drop_first(), cur.push(s[0]))
    }
}

/// The lines of a byte stream.
pub open spec fn spec_lines(s: Seq<u8>) -> Seq<Seq<u8>> {
    lines_from(s, Seq::empty())
}

/// The concatenation of `ls`, each line followed by one newline byte.
pub open spec fn unlines(ls: Seq<Seq<u8>>) -> Seq<u8>
    decreases ls.len(),
{
    if ls.len() == 0 {
        Seq::empty()
    } else {
        ls.first() + seq![NEWLINE] + unlines(ls.drop_first())
    }
}

/// A byte string that neither starts nor ends with whitespace trims to
/// itself.
pub proof fn lemma_trim_noop(s: Seq<u8>)
    requires
        s.len() > 0,
        !is_ws(s[0]),
        !is_ws(s.last()),
    ensures
        trim_spec(s) == s,
{
    assert(trim_front(s) == s);
    assert(trim_back(s) == s);
}

/// Splitting consumes one whole newline-free line at a time.
pub proof fn lemma_lines_feed_line(l: Seq<u8>, rest: Seq<u8>, cur: Seq<u8>)
    requires
        !l.contains(NEWLINE),
    ensures
        lines_from(l + seq![NEWLINE] + rest, cur) == seq![cur + l] + lines_from(rest, Seq::empty()),
    decreases l.len(),
{
    let s = l + seq![NEWLINE] + rest;
    if l.len() == 0 {
        assert(s[0] == NEWLINE);
        assert(s.drop_first() =~= rest);
        assert(cur + l =~= cur);
    } else {
        if l[0] == NEWLINE {
            assert(l.contains(NEWLINE));
        }
        assert(s[0] == l[0]);
        assert(s.drop_first() =~= l.drop_first() + seq![NEWLINE] + rest);
        assert(!l.drop_first().contains(NEWLINE)) by {
            if l.drop_first().contains(NEWLINE) {
                let i = choose|i: int|
                    0 <= i < l.drop_first().len() && l.drop_first()[i] == NEWLINE;
                assert(l[i + 1] == NEWLINE);
                assert(l.contains(NEWLINE));
            }
        }
        lemma_lines_feed_line(l.drop_first(), rest, cur.push(l[0]));
        assert(cur.push(l[0]) + l.drop_first() =~= cur + l);
    }
}

/// Splitting the concatenation of newline-free lines (each terminated)
/// yields those lines back, before whatever the rest splits to.
pub proof fn lemma_unlines_feed(ls: Seq<Seq<u8>>, rest: Seq<u8>)
    requires
        forall|i: int| 0 <= i < ls.len() ==> !(#[trigger] ls[i]).contains(NEWLINE),
    ensures
        lines_from(unlines(ls) + rest, Seq::empty()) == ls + lines_from(rest, Seq::empty()),
    decreases ls.len(),
{
    if ls.len() == 0 {
        assert(unlines(ls) + rest =~= rest);
        assert(ls + lines_from(rest, Seq::empty()) =~= lines_from(rest, Seq::empty()));
    } else {
        assert(unlines(ls) + rest =~= ls.first() + seq![NEWLINE] + (unlines(ls.drop_first())
            + rest));
        lemma_lines_feed_line(ls.first(), unlines(ls.drop_first()) + rest, Seq::empty());
        assert(Seq::<u8>::empty() + ls.first() =~= ls.first());
        assert(forall|i: int|
            0 <= i < ls.drop_first().len() ==> !(#[trigger] ls.drop_first()[i]).contains(NEWLINE));
        lemma_unlines_feed(ls.drop_first(), rest);
        assert(seq![ls.first()] + (ls.drop_first() + lines_from(rest, Seq::empty())) =~= ls
            + lines_from(rest, Seq::empty()));
    }
}

/// No line that splitting produces contains a newline byte.
pub proof fn lemma_lines_no_newline(s: Seq<u8>, cur: Seq<u8>)
    requires
        !cur.contains(NEWLINE),
    ensures
        forall|i: int|
            0 <= i < lines_from(s, cur).len() ==> !(#[trigger] lines_from(s, cur)[i]).contains(
                NEWLINE,
            ),
    decreases s.len(),
{
    let ls = lines_from(s, cur);
    if s.len() == 0 {
        if cur.len() > 0 {
            assert(ls =~= seq![cur]);
            assert(ls[0] == cur);
        }
    } else if s[0] == NEWLINE {
        lemma_lines_no_newline(s.drop_first(), Seq::empty());
        assert(!Seq::<u8>::empty().contains(NEWLINE));
        let tail = lines_from(s.drop_first(), Seq::empty());
        assert(ls =~= seq![cur] + tail);
        assert forall|i: int| 0 <= i < ls.len() implies !(#[trigger] ls[i]).contains(NEWLINE) by {
            if i == 0 {
                assert(ls[0] == cur);
            } else {
                assert(ls[i] == tail[i - 1]);
            }
        }
    } else {
        assert(!cur.push(s[0]).contains(NEWLINE)) by {
            if cur.push(s[0]).contains(NEWLINE) {
                let i = choose|i: int|
                    0 <= i < cur.push(s[0]).len() && cur.push(s[0])[i] == NEWLINE;
                if i < cur.len() {
                    assert(cur[i] == NEWLINE);
                    assert(cur.contains(NEWLINE));
                } else {
                    assert(s[0] == NEWLINE);
                }
            }
        }
        lemma_lines_no_newline(s.drop_first(), cur.push(s[0]));
        let tail = lines_from(s.drop_first(), cur.push(s[0]));
        assert(ls == tail);
        assert forall|i: int| 0 <= i < ls.len() implies !(#[trigger] ls[i]).contains(NEWLINE) by {
            assert(ls[i] == tail[i]);
        }
    }
}

/// Joining the lines of a newline-terminated byte string gives it back.
pub proof fn lemma_unlines_of_lines(s: Seq<u8>, cur: Seq<u8>)
    requires
        s.len() > 0,
        s.last() == NEWLINE,
    ensures
        unlines(lines_from(s, cur)) == cur + s,
    decreases s.len(),
{
    if s[0] == NEWLINE {
        let rest = s.drop_first();
        if rest.len() == 0 {
            assert(lines_from(s, cur) =~= seq![cur] + lines_from(rest, Seq::empty()));
            assert(lines_from(rest, Seq::empty()) =~= Seq::<Seq<u8>>::empty());
            assert(lines_from(s, cur) =~= seq![cur]);
            assert(unlines(seq![cur]) =~= cur + seq![NEWLINE]) by {
                assert((seq![cur]).first() == cur);
                assert((seq![cur]).drop_first() =~= Seq::<Seq<u8>>::empty());
                assert(unlines(Seq::<Seq<u8>>::empty()) =~= Seq::<u8>::empty());
            }
            assert(cur + s =~= cur + seq![NEWLINE]);
        } else {
            assert(rest.last() == s.last());
            lemma_unlines_of_lines(rest, Seq::empty());
            let tail = lines_from(rest, Seq::empty());
            assert(lines_from(s, cur) == seq![cur] + tail);
            assert(unlines(seq![cur] + tail) =~= cur + seq![NEWLINE] + unlines(tail)) by {
                assert((seq![cur] + tail).first() == cur);
                assert((seq![cur] + tail).drop_first() =~= tail);
            }
            assert(unlines(tail) =~= Seq::<u8>::empty() + rest);
            assert(cur + seq![NEWLINE] + (Seq::<u8>::empty() + rest) =~= cur + s);
        }
    } else {
        let rest = s.drop_first();
        assert(rest.len() > 0);
        assert(rest.last() == s.last());
        lemma_unlines_of_lines(rest, cur.push(s[0]));
        assert(cur.push(s[0]) + rest =~= cur + s);
    }
}

/// The concatenation of terminated lines is empty or ends with a newline.
pub proof fn lemma_unlines_terminated(ls: Seq<Seq<u8>>)
    ensures
        unlines(ls).len() == 0 || unlines(ls).last() == NEWLINE,
    decreases ls.len(),
{
    if ls.len() > 0 {
        lemma_unlines_terminated(ls.drop_first());
        let u = unlines(ls);
        let tail = unlines(ls.drop_first());
        assert(u =~= ls.first() + seq![NEWLINE] + tail);
        if tail.len() == 0 {
            assert(u.last() == NEWLINE);
        } else {
            assert(u.last() == tail.last());
        }
    }
}

/// Exec mirror of [`is_ws`].
pub fn is_ws_byte(b: u8) -> (r: bool)
    ensures
        r == is_ws(b),
{
    b == 32 || b == 9 || b == 10 || b == 11 || b == 12 || b == 13
}

/// Whether two byte slices hold the same bytes.
pub fn bytes_eq(a: &[u8], b: &[u8]) -> (r: bool)
    ensures
        r == (a@ == b@),
{
    if a.len() != b.len() {
        assert(a@.len() != b@.len());
        return false;
    }
    let n = a.len();
    let mut i: usize = 0;
    while i < n
        invariant
            n == a@.len() == b@.len(),
            i <= n,
            forall|j: int| 0 <= j < i ==> a@[j] == b@[j],
        decreases n - i,
    {
        if a[i] != b[i] {
            return false;
        }
        i += 1;
    }
    proof {
        assert(a@ =~= b@);
    }
    true
}

/// The slice with surrounding ASCII whitespace removed.
pub fn trim_bytes<'a>(s: &'a [u8]) -> (r: &'a [u8])
    ensures
        r@ == trim_spec(s@),
{
    let n = s.len();
    let mut i: usize = 0;
    proof {
        assert(s@.skip(0) =~= s@);
    }
    while i < n && is_ws_byte(s[i])
        invariant
            n == s@.len(),
            i <= n,
            trim_front(s@) == trim_front(s@.skip(i as int)),
        decreases n - i,
    {
        proof {
            assert(s@.skip(i as int).drop_first() =~= s@.skip(i as int + 1));
        }
        i += 1;
    }
    proof {
        if i < n {
            assert(trim_front(s@.skip(i as int)) == s@.skip(i as int));
        } else {
            assert(s@.skip(i as int) =~= Seq::<u8>::empty());
        }
    }
    let mut j: usize = n;
    proof {
        assert(s@.subrange(i as int, n as int) =~= s@.skip(i as int));
    }
    while j > i && is_ws_byte(s[j - 1])
        invariant
            n == s@.len(),
            i <= j <= n,
            trim_front(s@) == s@.skip(i as int),
            trim_back(s@.skip(i as int)) == trim_back(s@.subrange(i as int, j as int)),
        decreases j,
    {
        proof {
            let piece = s@.subrange(i as int, j as int);
            assert(piece.last() == s@[j - 1]);
            assert(piece.drop_last() =~= s@.subrange(i as int, j as int - 1));
        }
        j -= 1;
    }
    proof {
        let piece = s@.subrange(i as int, j as int);
        if j > i {
            assert(trim_back(piece) == piece);
        } else {
            assert(piece =~= Seq::<u8>::empty());
        }
    }
    vstd::slice::slice_subrange(s, i, j)
}

/// The lines of `input`, split at newline bytes, in input order.
pub fn split_lines(input: &[u8]) -> (r: Vec<Vec<u8>>)
    ensures
        r@.map_values(|l: Vec<u8>| l@) == spec_lines(input@),
{
    let n = input.len();
    let mut out: Vec<Vec<u8>> = Vec::new();
    let mut cur: Vec<u8> = Vec::new();
    let mut i: usize = 0;
    proof {
        assert(input@.skip(0) =~= input@);
        assert(out@.map_values(|l: Vec<u8>| l@) =~= Seq::<Seq<u8>>::empty());
    }
    while i < n
        invariant
            n == input@.len(),
            i <= n,
            spec_lines(input@) == out@.map_values(|l: Vec<u8>| l@) + lines_from(
                input@.skip(i as int),
                cur@,
            ),
        decreases n - i,
    {
        let b = input[i];
        proof {
            assert(input@.skip(i as int)[0] == input@[i as int]);
            assert(input@.skip(i as int).drop_first() =~= input@.skip(i as int + 1));
        }
        if b == NEWLINE {
            let ghost prev_out = out@;
            let ghost prev_cur = cur@;
            out.push(cur);
            cur = Vec::new();
            proof {
                assert(out@.map_values(|l: Vec<u8>| l@) =~= prev_out.map_values(|l: Vec<u8>| l@)
                    + seq![prev_cur]);
            }
        } else {
            cur.push(b);
        }
        i += 1;
    }
    proof {
        assert(input@.skip(n as int) =~= Seq::<u8>::empty());
    }
    if cur.len() > 0 {
        let ghost prev_out = out@;
        let ghost prev_cur = cur@;
        out.push(cur);
        proof {
            assert(out@.map_values(|l: Vec<u8>| l@) =~= prev_out.map_values(|l: Vec<u8>| l@)
                + seq![prev_cur]);
        }
    }
    out
}

} // verus!
