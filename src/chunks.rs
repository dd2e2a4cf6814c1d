//! Splitting an outbound message into bounded, ordered chunks.
use vstd::prelude::*;

verus! {

/// One piece of an outbound message.
pub struct Chunk {
    pub text: String,
    /// Set on the first chunk only: the receiver notifies once per message.
    pub first: bool,
}

/// Number of chunks sent for `len` characters with `budget` characters per
/// chunk and at most `max_chunks` chunks: `min(ceil(len / budget), max_chunks)`.
pub open spec fn chunk_count(len: nat, budget: nat, max_chunks: nat) -> nat
    recommends
        budget > 0,
{
    let n = ((len + budget - 1) as nat / budget) as nat;
    if n <= max_chunks { n } else { max_chunks }
}

/// The `i`-th chunk of `text`: characters `i * budget` up to
/// `(i + 1) * budget`, or up to the end.
pub open spec fn chunk_at(text: Seq<char>, budget: nat, i: nat) -> Seq<char> {
    let lo = i * budget;
    let hi = (i + 1) * budget;
    text.subrange(lo as int, if hi <= text.len() { hi as int } else { text.len() as int })
}

/// Appends one character to a string.
///
/// Relies on `String::push`, which appends the character at the end.
#[verifier::external_body]
fn push_char(s: &mut String, c: char)
    ensures
        final(s)@ == old(s)@.push(c),
{
    s.push(c)
}

/// Characters of a string, in order.
fn chars_of(text: &str) -> (r: Vec<char>)
    ensures
        r@ == text@,
{
    let mut r: Vec<char> = Vec::new();
    for c in it: text.chars()
        invariant
            it.seq() == text@,
            r@ == it.seq().take(it.index() as int),
    {
        r.push(c);
    }
    r
}

proof fn lemma_chunk_count_exact(n: nat, b: nat, k: nat)
    requires
        b > 0,
        k * b >= n,
        k == 0 || (k - 1) * b < n,
    ensures
        (n + b - 1) as nat / b == k,
{
    if k == 0 {
        assert(n == 0) by (nonlinear_arith)
            requires
                k * b >= n,
                k == 0,
        ;
        assert((b - 1) as nat / b == 0) by (nonlinear_arith)
            requires
                b > 0,
        ;
    } else {
        assert((n + b - 1) as nat / b == k) by (nonlinear_arith)
            requires
                b > 0,
                k * b >= n,
                (k - 1) * b < n,
        ;
    }
}

proof fn lemma_chunk_count_at_least(n: nat, b: nat, k: nat)
    requires
        b > 0,
        k > 0,
        (k - 1) * b < n,
    ensures
        (n + b - 1) as nat / b >= k,
{
    assert((n + b - 1) as nat / b >= k) by (nonlinear_arith)
        requires
            b > 0,
            k > 0,
            (k - 1) * b < n,
    ;
}

/// Splits `text` into chunks of at most `budget` characters, in order,
/// keeping at most `max_chunks` of them; only the first is marked first.
/// Chunks are cut between characters, never inside one.
pub fn split_message(text: &str, budget: usize, max_chunks: usize) -> (r: Vec<Chunk>)
    requires
        budget > 0,
    ensures
        r.len() == chunk_count(text@.len(), budget as nat, max_chunks as nat),
        forall|i: int|
            0 <= i < r.len() ==> (#[trigger] r[i]).text@ == chunk_at(text@, budget as nat, i as nat)
                && r[i].first == (i == 0),
{
    let cs = chars_of(text);
    let n = cs.len();
    let mut r: Vec<Chunk> = Vec::new();
    let mut start: usize = 0;
    while start < n && r.len() < max_chunks
        invariant
            cs@ == text@,
            n == cs@.len(),
            budget > 0,
            r.len() <= max_chunks,
            start as int == if r.len() * budget <= n { r.len() * budget } else { n as int },
            r.len() == 0 || (r.len() - 1) * budget < n,
            forall|i: int|
                0 <= i < r.len() ==> (#[trigger] r[i]).text@ == chunk_at(text@, budget as nat, i as nat)
                    && r[i].first == (i == 0),
        decreases n - start,
    {
        let end: usize = if n - start <= budget { n } else { start + budget };
        let mut piece = String::new();
        let mut j: usize = start;
        while j < end
            invariant
                start <= j <= end <= n == cs@.len(),
                piece@ == cs@.subrange(start as int, j as int),
            decreases end - j,
        {
            push_char(&mut piece, cs[j]);
            assert(cs@.subrange(start as int, j + 1) =~= cs@.subrange(start as int, j as int).push(cs@[j as int]));
            j = j + 1;
        }
        let k = r.len();
        proof {
            assert(k * budget < n);
            assert((k + 1) * budget == k * budget + budget) by (nonlinear_arith);
        }
        r.push(Chunk { text: piece, first: k == 0 });
        start = end;
    }
    proof {
        let k = r.len() as nat;
        if start == n && r.len() < max_chunks {
            lemma_chunk_count_exact(n as nat, budget as nat, k);
        } else if r.len() > 0 {
            lemma_chunk_count_at_least(n as nat, budget as nat, k);
        } else if n == 0 {
            lemma_chunk_count_exact(n as nat, budget as nat, k);
        }
    }
    r
}

/// Texts of the chunks that are kept.
pub open spec fn chunk_texts(text: Seq<char>, budget: nat, max_chunks: nat) -> Seq<Seq<char>> {
    Seq::new(chunk_count(text.len(), budget, max_chunks), |i: int| chunk_at(text, budget, i as nat))
}

proof fn lemma_prefix_rejoin(text: Seq<char>, budget: nat, k: nat)
    requires
        budget > 0,
        k == 0 || (k - 1) * budget < text.len(),
    ensures
        Seq::new(k, |i: int| chunk_at(text, budget, i as nat)).flatten() =~= text.take(
            if k * budget <= text.len() { (k * budget) as int } else { text.len() as int },
        ),
    decreases k,
{
    if k > 0 {
        let km = (k - 1) as nat;
        assert(km == 0 || (km - 1) * budget < text.len()) by (nonlinear_arith)
            requires
                km == 0 || km * budget < text.len(),
                budget > 0,
        ;
        lemma_prefix_rejoin(text, budget, km);
        let s = Seq::new(k, |i: int| chunk_at(text, budget, i as nat));
        assert(s.drop_last() =~= Seq::new(km, |i: int| chunk_at(text, budget, i as nat)));
        assert(s =~= s.drop_last().push(s.last()));
        s.drop_last().lemma_flatten_push(s.last());
        assert(k * budget == km * budget + budget) by (nonlinear_arith)
            requires
                k == km + 1,
        ;
    }
}

/// Rejoining the chunks gives back the message cut to what the chunks can
/// hold: the first `min(len, budget * max_chunks)` characters.
pub proof fn lemma_chunks_rejoin(text: Seq<char>, budget: nat, max_chunks: nat)
    requires
        budget > 0,
    ensures
        chunk_texts(text, budget, max_chunks).flatten() == text.take(
            if text.len() <= budget * max_chunks { text.len() as int } else { (budget * max_chunks) as int },
        ),
{
    let n = text.len();
    let c = (n + budget - 1) as nat / budget;
    let k = chunk_count(n, budget, max_chunks);
    assert(c * budget >= n && (c == 0 || (c - 1) * budget < n)) by (nonlinear_arith)
        requires
            c == (n + budget - 1) as nat / budget,
            budget > 0,
    ;
    if c <= max_chunks {
        assert(c * budget <= budget * max_chunks) by (nonlinear_arith)
            requires
                c <= max_chunks,
        ;
    } else {
        assert(max_chunks == 0 || (max_chunks - 1) * budget < n) by (nonlinear_arith)
            requires
                max_chunks < c,
                c == 0 || (c - 1) * budget < n,
        ;
        assert(budget * max_chunks == max_chunks * budget) by (nonlinear_arith);
    }
    lemma_prefix_rejoin(text, budget, k);
    assert(text.take(n as int) =~= text);
}

} // verus!
