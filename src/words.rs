use vstd::prelude::*;

verus! {

/// ASCII whitespace: space, tab, line feed, form feed and carriage return.
pub open spec fn is_space(c: char) -> bool {
    c == ' ' || c == '\t' || c == '\n' || c == '\x0C' || c == '\r'
}

/// The (start, end) positions of the maximal runs of non-whitespace in `s`.
pub open spec fn word_spans(s: Seq<char>) -> Seq<(int, int)>
    decreases s.len(),
{
    if s.len() == 0 {
        Seq::empty()
    } else {
        let w = word_spans(s.drop_last());
        let n = s.len() - 1;
        if is_space(s[n]) {
            w
        } else if n > 0 && !is_space(s[n - 1]) {
            w.update(w.len() - 1, (w.last().0, n + 1))
        } else {
            w.push((n, n + 1))
        }
    }
}

/// The words of `s`: its maximal runs of non-whitespace, in order.
pub open spec fn words(s: Seq<char>) -> Seq<Seq<char>> {
    word_spans(s).map_values(|p: (int, int)| s.subrange(p.0, p.1))
}

pub proof fn lemma_word_spans_shape(s: Seq<char>)
    ensures
        forall|k: int| 0 <= k < word_spans(s).len() ==>
            0 <= (#[trigger] word_spans(s)[k]).0 < word_spans(s)[k].1 <= s.len(),
        s.len() > 0 && !is_space(s.last()) ==> word_spans(s).len() > 0 && word_spans(s).last().1 == s.len(),
    decreases s.len(),
{
    if s.len() > 0 {
        let d = s.drop_last();
        lemma_word_spans_shape(d);
        let w = word_spans(d);
        let n = s.len() - 1;
        if !is_space(s[n]) && n > 0 && !is_space(s[n - 1]) {
            assert(d.last() == s[n - 1]);
            assert(w.len() > 0);
            let t = w.last();
            assert(t == w[w.len() - 1]);
            assert(0 <= t.0 < t.1 <= n);
        }
    }
}

fn is_space_char(c: char) -> (r: bool)
    ensures
        r == is_space(c),
{
    c == ' ' || c == '\t' || c == '\n' || c == '\x0C' || c == '\r'
}

/// Splits `s` at ASCII whitespace into its words.
pub fn split_words(s: &str) -> (r: Vec<String>)
    ensures
        r@.map_values(|w: String| w@) == words(s@),
{
    let n = s.unicode_len();
    let mut spans: Vec<(usize, usize)> = Vec::new();
    let mut i: usize = 0;
    let mut prev_space = true;
    while i < n
        invariant
            i <= n,
            n == s@.len(),
            spans@.map_values(|p: (usize, usize)| (p.0 as int, p.1 as int)) == word_spans(s@.subrange(0, i as int)),
            prev_space == (i == 0 || is_space(s@[i - 1])),
        decreases n - i,
    {
        let ghost pre = s@.subrange(0, i as int);
        let ghost next = s@.subrange(0, i + 1);
        assert(next.drop_last() =~= pre);
        proof {
            lemma_word_spans_shape(pre);
        }
        let c = s.get_char(i);
        if is_space_char(c) {
            prev_space = true;
        } else if !prev_space {
            let last = spans.len() - 1;
            let start = spans[last].0;
            spans.set(last, (start, i + 1));
            assert(spans@.map_values(|p: (usize, usize)| (p.0 as int, p.1 as int)) =~= word_spans(next));
        } else {
            spans.push((i, i + 1));
            assert(spans@.map_values(|p: (usize, usize)| (p.0 as int, p.1 as int)) =~= word_spans(next));
        }
        prev_space = is_space_char(c);
        i += 1;
    }
    assert(s@.subrange(0, n as int) =~= s@);
    proof {
        lemma_word_spans_shape(s@);
    }
    let mut out: Vec<String> = Vec::new();
    let mut k: usize = 0;
    while k < spans.len()
        invariant
            k <= spans.len(),
            n == s@.len(),
            spans@.map_values(|p: (usize, usize)| (p.0 as int, p.1 as int)) == word_spans(s@),
            out.len() == k,
            forall|j: int| 0 <= j < k ==> (#[trigger] out@[j])@ == words(s@)[j],
        decreases spans.len() - k,
    {
        proof {
            lemma_word_spans_shape(s@);
        }
        assert(word_spans(s@)[k as int] == (spans@[k as int].0 as int, spans@[k as int].1 as int));
        let w = s.substring_char(spans[k].0, spans[k].1).to_owned();
        out.push(w);
        k += 1;
    }
    assert(out@.map_values(|w: String| w@) =~= words(s@));
    out
}

} // verus!
