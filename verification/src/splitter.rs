use vstd::prelude::*;
use vstd::utf8::{decode_utf8, valid_utf8};

verus! {

/// A line's bytes with one carriage return before the terminator dropped.
pub open spec fn strip_cr(l: Seq<u8>) -> Seq<u8> {
    if l.len() > 0 && l.last() == 13 {
        l.drop_last()
    } else {
        l
    }
}

/// Index of the first line feed among the bytes, if any.
pub open spec fn find_lf(b: Seq<u8>) -> Option<int>
    decreases b.len(),
{
    if b.len() == 0 {
        None
    } else if b[0] == 10 {
        Some(0)
    } else {
        match find_lf(b.drop_first()) {
            Some(i) => Some(i + 1),
            None => None,
        }
    }
}

proof fn lemma_find_lf_range(b: Seq<u8>)
    ensures
        match find_lf(b) {
            Some(i) => 0 <= i < b.len() && b[i] == 10 && (forall|j: int| 0 <= j < i ==> b[j] != 10),
            None => forall|j: int| 0 <= j < b.len() ==> b[j] != 10,
        },
    decreases b.len(),
{
    if b.len() > 0 && b[0] != 10 {
        let d = b.drop_first();
        lemma_find_lf_range(d);
        assert(forall|j: int| 0 <= j < d.len() ==> d[j] == b[j + 1]);
        match find_lf(b) {
            Some(i) => {
                assert(b[i] == d[i - 1]);
                assert forall|j: int| 0 <= j < i implies b[j] != 10 by {
                    if j > 0 {
                        assert(b[j] == d[j - 1]);
                    }
                }
            },
            None => {
                assert forall|j: int| 0 <= j < b.len() implies b[j] != 10 by {
                    if j > 0 {
                        assert(b[j] == d[j - 1]);
                    }
                }
            },
        }
    }
}

/// The terminated lines of the bytes: each run up to a line feed, with an
/// optional carriage return before the line feed dropped. Bytes after the
/// last line feed are no line yet.
pub open spec fn complete_lines(b: Seq<u8>) -> Seq<Seq<u8>>
    decreases b.len(),
{
    match find_lf(b) {
        Some(i) => if 0 <= i < b.len() {
            seq![strip_cr(b.take(i))] + complete_lines(b.skip(i + 1))
        } else {
            Seq::empty()
        },
        None => Seq::empty(),
    }
}

/// The bytes after the last line feed: an undelivered partial line.
pub open spec fn pending_after(b: Seq<u8>) -> Seq<u8>
    decreases b.len(),
{
    match find_lf(b) {
        Some(i) => if 0 <= i < b.len() {
            pending_after(b.skip(i + 1))
        } else {
            b
        },
        None => b,
    }
}

/// The text of the lines: each line decoded as UTF-8; a line that is no
/// valid UTF-8 is dropped.
pub open spec fn decoded_lines(ls: Seq<Seq<u8>>) -> Seq<Seq<char>>
    decreases ls.len(),
{
    if ls.len() == 0 {
        Seq::empty()
    } else {
        let rest = decoded_lines(ls.drop_first());
        if valid_utf8(ls.first()) {
            seq![decode_utf8(ls.first())] + rest
        } else {
            rest
        }
    }
}

/// The text lines a whole byte feed denotes.
pub open spec fn feed_lines(b: Seq<u8>) -> Seq<Seq<char>> {
    decoded_lines(complete_lines(b))
}

proof fn lemma_find_lf_push(b: Seq<u8>, x: u8)
    ensures
        find_lf(b.push(x)) == (match find_lf(b) {
            Some(i) => Some(i),
            None => if x == 10 {
                Some(b.len() as int)
            } else {
                None
            },
        }),
    decreases b.len(),
{
    let e = b.push(x);
    if b.len() == 0 {
        if x == 10 {
            assert(e[0] == 10);
        } else {
            assert(e[0] != 10);
            assert(e.drop_first() =~= Seq::<u8>::empty());
            assert(find_lf(e.drop_first()) is None);
        }
    } else {
        assert(e[0] == b[0]);
        if b[0] == 10 {
            assert(find_lf(b) == Some(0int));
            assert(find_lf(e) == Some(0int));
        } else {
            assert(e.drop_first() =~= b.drop_first().push(x));
            lemma_find_lf_push(b.drop_first(), x);
            assert(find_lf(e.drop_first()) == find_lf(b.drop_first().push(x)));
            assert(b.drop_first().len() == b.len() - 1);
        }
    }
}

/// Appending a byte that is no line feed completes no line: it only grows
/// the pending tail.
proof fn lemma_push_plain_byte(b: Seq<u8>, x: u8)
    requires
        x != 10,
    ensures
        complete_lines(b.push(x)) == complete_lines(b),
        pending_after(b.push(x)) == pending_after(b).push(x),
    decreases b.len(),
{
    let e = b.push(x);
    lemma_find_lf_push(b, x);
    lemma_find_lf_range(b);
    match find_lf(b) {
        Some(i) => {
            assert(e.take(i) =~= b.take(i));
            assert(e.skip(i + 1) =~= b.skip(i + 1).push(x));
            lemma_push_plain_byte(b.skip(i + 1), x);
            assert(complete_lines(e) =~= complete_lines(b));
        },
        None => {
            assert(complete_lines(e) =~= complete_lines(b));
        },
    }
}

/// Appending a line feed completes exactly one line: the pending tail,
/// stripped of one carriage return; nothing stays pending.
proof fn lemma_push_lf(b: Seq<u8>)
    ensures
        complete_lines(b.push(10)) == complete_lines(b) + seq![strip_cr(pending_after(b))],
        pending_after(b.push(10)) == Seq::<u8>::empty(),
    decreases b.len(),
{
    let e = b.push(10);
    lemma_find_lf_push(b, 10);
    lemma_find_lf_range(b);
    match find_lf(b) {
        Some(i) => {
            assert(find_lf(e) == Some(i));
            assert(0 <= i < b.len());
            assert(e.take(i) =~= b.take(i));
            assert(e.skip(i + 1) =~= b.skip(i + 1).push(10));
            lemma_push_lf(b.skip(i + 1));
            assert(complete_lines(e) == seq![strip_cr(e.take(i))] + complete_lines(e.skip(i + 1)));
            assert(pending_after(e) == pending_after(e.skip(i + 1)));
            assert(complete_lines(b) == seq![strip_cr(b.take(i))] + complete_lines(b.skip(i + 1)));
            assert(pending_after(b) == pending_after(b.skip(i + 1)));
            assert(complete_lines(e) =~= complete_lines(b) + seq![strip_cr(pending_after(b))]);
        },
        None => {
            let n = b.len() as int;
            assert(find_lf(e) == Some(n));
            assert(e.take(n) =~= b);
            assert(e.skip(n + 1) =~= Seq::<u8>::empty());
            lemma_complete_lines_empty();
            assert(complete_lines(e) == seq![strip_cr(e.take(n))] + complete_lines(e.skip(n + 1)));
            assert(pending_after(e) == pending_after(e.skip(n + 1)));
            assert(complete_lines(b) == Seq::<Seq<u8>>::empty());
            assert(pending_after(b) == b);
            assert(complete_lines(e) =~= complete_lines(b) + seq![strip_cr(pending_after(b))]);
        },
    }
}

proof fn lemma_complete_lines_empty()
    ensures
        complete_lines(Seq::<u8>::empty()) == Seq::<Seq<u8>>::empty(),
        pending_after(Seq::<u8>::empty()) == Seq::<u8>::empty(),
{
    assert(find_lf(Seq::<u8>::empty()) is None);
}

/// The pending tail never holds a terminator.
proof fn lemma_pending_no_lf(b: Seq<u8>)
    ensures
        forall|j: int| 0 <= j < pending_after(b).len() ==> pending_after(b)[j] != 10,
    decreases b.len(),
{
    lemma_find_lf_range(b);
    match find_lf(b) {
        Some(i) => {
            lemma_pending_no_lf(b.skip(i + 1));
            assert(pending_after(b) == pending_after(b.skip(i + 1)));
            assert forall|j: int| 0 <= j < pending_after(b).len() implies pending_after(b)[j]
                != 10 by {
                assert(pending_after(b)[j] == pending_after(b.skip(i + 1))[j]);
            }
        },
        None => {},
    }
}

/// Where the stream is cut into chunks is immaterial: the lines of the whole
/// feed are the lines of the first part followed by the lines that the
/// remainder completes, starting from the first part's pending tail.
pub proof fn lemma_split_chunked(a: Seq<u8>, b: Seq<u8>)
    ensures
        complete_lines(a + b) == complete_lines(a) + complete_lines(pending_after(a) + b),
        pending_after(a + b) == pending_after(pending_after(a) + b),
    decreases b.len(),
{
    let pa = pending_after(a);
    if b.len() == 0 {
        assert(a + b =~= a);
        assert(pa + b =~= pa);
        lemma_pending_no_lf(a);
        lemma_find_lf_range(pa);
        if find_lf(pa) is Some {
            assert(pa[find_lf(pa).unwrap()] == 10);
            assert(false);
        }
        assert(complete_lines(pa) == Seq::<Seq<u8>>::empty());
        assert(pending_after(pa) == pa);
        assert(complete_lines(a) + complete_lines(pa) =~= complete_lines(a));
    } else {
        let b0 = b.drop_last();
        let x = b.last();
        assert(a + b =~= (a + b0).push(x));
        assert(pa + b =~= (pa + b0).push(x));
        lemma_split_chunked(a, b0);
        if x == 10 {
            lemma_push_lf(a + b0);
            lemma_push_lf(pa + b0);
            assert(complete_lines(a + b) =~= complete_lines(a) + complete_lines(pa + b));
        } else {
            lemma_push_plain_byte(a + b0, x);
            lemma_push_plain_byte(pa + b0, x);
            assert(complete_lines(a + b) =~= complete_lines(a) + complete_lines(pa + b));
        }
    }
}

/// Relies on `String::from_utf8`: it succeeds exactly on valid UTF-8, and
/// the string then holds the decoded characters.
#[verifier::external_body]
fn decode_line(bytes: Vec<u8>) -> (r: Option<String>)
    ensures
        match r {
            Some(s) => valid_utf8(bytes@) && s@ == decode_utf8(bytes@),
            None => !valid_utf8(bytes@),
        },
{
    String::from_utf8(bytes).ok()
}

/// Splits an arriving byte stream into text lines, chunk by chunk: `\n`
/// terminates a line, one `\r` before it is tolerated and dropped, and data
/// after the last terminator stays buffered until more bytes arrive. A
/// stream that ends mid-line leaves that partial line undelivered.
pub struct LineSplitter {
    buf: Vec<u8>,
}

impl View for LineSplitter {
    type V = Seq<u8>;

    closed spec fn view(&self) -> Seq<u8> {
        self.buf@
    }
}

impl LineSplitter {
    /// Whether the buffered tail is a genuine partial line: it holds no
    /// terminator. Every splitter this module hands out keeps this.
    pub open spec fn wf(&self) -> bool {
        forall|j: int| 0 <= j < self@.len() ==> self@[j] != 10
    }

    /// A splitter with nothing pending.
    pub fn new() -> (r: Self)
        ensures
            r@ == Seq::<u8>::empty(),
            r.wf(),
    {
        LineSplitter { buf: Vec::new() }
    }

    /// Consumes the next chunk of the stream and yields, in order, the text
    /// of the lines it completes; what follows the last terminator stays
    /// pending.
    pub fn push_chunk(&mut self, chunk: &[u8]) -> (r: Vec<String>)
        requires
            old(self).wf(),
        ensures
            final(self).wf(),
            final(self)@ == pending_after(old(self)@ + chunk@),
            r@.map_values(|s: String| s@) == feed_lines(old(self)@ + chunk@),
    {
        let ghost all = old(self)@ + chunk@;
        let mut out: Vec<String> = Vec::new();
        let mut k: usize = 0;
        proof {
            assert(all.take(old(self)@.len() as int) =~= old(self)@);
            lemma_find_lf_range(old(self)@);
            assert(complete_lines(old(self)@) =~= Seq::<Seq<u8>>::empty());
            assert(pending_after(old(self)@) == old(self)@);
            assert(out@.map_values(|s: String| s@) =~= feed_lines(all.take(
                old(self)@.len() as int,
            )));
        }
        while k < chunk.len()
            invariant
                k <= chunk@.len(),
                all == old(self)@ + chunk@,
                self@ == pending_after(all.take(old(self)@.len() + k)),
                self.wf(),
                out@.map_values(|s: String| s@) == feed_lines(all.take(old(self)@.len() + k)),
            decreases chunk@.len() - k,
        {
            let ghost done = all.take(old(self)@.len() + k);
            let x = chunk[k];
            proof {
                assert(all[old(self)@.len() + k] == chunk@[k as int]);
                assert(all.take(old(self)@.len() + k + 1) =~= done.push(x));
            }
            if x == 10 {
                proof {
                    lemma_push_lf(done);
                }
                let mut line = std::vec::Vec::new();
                std::mem::swap(&mut line, &mut self.buf);
                if line.len() > 0 && line[line.len() - 1] == 13 {
                    line.pop();
                    proof {
                        assert(line@ =~= strip_cr(pending_after(done)));
                    }
                }
                proof {
                    assert(line@ == strip_cr(pending_after(done)));
                }
                let ghost lines_before = out@.map_values(|s: String| s@);
                match decode_line(line) {
                    Some(text) => {
                        out.push(text);
                    },
                    None => {},
                }
                proof {
                    lemma_decoded_lines_snoc(complete_lines(done), strip_cr(pending_after(done)));
                    assert(out@.map_values(|s: String| s@) =~= feed_lines(done.push(x)));
                }
            } else {
                proof {
                    lemma_push_plain_byte(done, x);
                }
                self.buf.push(x);
                proof {
                    assert(out@.map_values(|s: String| s@) =~= feed_lines(done.push(x)));
                }
            }
            k += 1;
        }
        proof {
            assert(all.take(old(self)@.len() + chunk@.len() as int) =~= all);
        }
        out
    }
}

/// Decoding distributes over adding one more line at the end.
proof fn lemma_decoded_lines_snoc(ls: Seq<Seq<u8>>, l: Seq<u8>)
    ensures
        decoded_lines(ls + seq![l]) == (if valid_utf8(l) {
            decoded_lines(ls) + seq![decode_utf8(l)]
        } else {
            decoded_lines(ls)
        }),
    decreases ls.len(),
{
    let e = ls + seq![l];
    if ls.len() == 0 {
        assert(e.first() == l);
        assert(e.drop_first() =~= Seq::<Seq<u8>>::empty());
        assert(decoded_lines(Seq::<Seq<u8>>::empty()) == Seq::<Seq<char>>::empty());
        assert(decoded_lines(e) == (if valid_utf8(e.first()) {
            seq![decode_utf8(e.first())] + decoded_lines(e.drop_first())
        } else {
            decoded_lines(e.drop_first())
        }));
        if valid_utf8(l) {
            assert(decoded_lines(e) =~= decoded_lines(ls) + seq![decode_utf8(l)]);
        } else {
            assert(decoded_lines(e) =~= decoded_lines(ls));
        }
    } else {
        assert(e.first() == ls.first());
        assert(e.drop_first() =~= ls.drop_first() + seq![l]);
        lemma_decoded_lines_snoc(ls.drop_first(), l);
        assert(decoded_lines(e) == (if valid_utf8(e.first()) {
            seq![decode_utf8(e.first())] + decoded_lines(e.drop_first())
        } else {
            decoded_lines(e.drop_first())
        }));
        assert(decoded_lines(ls) == (if valid_utf8(ls.first()) {
            seq![decode_utf8(ls.first())] + decoded_lines(ls.drop_first())
        } else {
            decoded_lines(ls.drop_first())
        }));
        if valid_utf8(l) {
            assert(decoded_lines(e) =~~= decoded_lines(ls) + seq![decode_utf8(l)]);
        } else {
            assert(decoded_lines(e) =~~= decoded_lines(ls));
        }
    }
}

} // verus!
