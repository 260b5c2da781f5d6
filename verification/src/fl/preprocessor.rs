//! Textual macros: `@macro NAME -> EXPANSION` lines define them, and every later occurrence
//! of a name in the source is replaced by its expansion.
use vstd::prelude::*;
use crate::lexical::{chars_are, is_white, is_white_exec};
use crate::text::{chars_of, push_char};

verus! {

/// The end of the run of non-white characters from `i`.
pub open spec fn word_end(s: Seq<char>, i: nat) -> nat
    decreases s.len() - i,
{
    if i < s.len() && !is_white(s[i as int]) {
        word_end(s, i + 1)
    } else {
        i
    }
}

/// The words of `s[i..]`: its maximal runs of non-white characters, in order.
pub open spec fn words_from(s: Seq<char>, i: nat) -> Seq<Seq<char>>
    decreases s.len() - i,
{
    if i >= s.len() {
        Seq::empty()
    } else if is_white(s[i as int]) {
        words_from(s, i + 1)
    } else {
        let e = word_end(s, i);
        if i < e <= s.len() {
            seq![s.subrange(i as int, e as int)] + words_from(s, e)
        } else {
            Seq::empty()
        }
    }
}

pub open spec fn words(s: Seq<char>) -> Seq<Seq<char>> {
    words_from(s, 0)
}

/// The words separated by single spaces.
pub open spec fn join_words(w: Seq<Seq<char>>) -> Seq<char>
    decreases w.len(),
{
    if w.len() == 0 {
        Seq::empty()
    } else if w.len() == 1 {
        w[0]
    } else {
        join_words(w.drop_last()) + seq![' '] + w.last()
    }
}

/// `h[i..]` with every occurrence of the (non-empty) `p` replaced by `t`, from left to right,
/// without overlaps.
pub open spec fn replace_from(h: Seq<char>, p: Seq<char>, t: Seq<char>, i: nat) -> Seq<char>
    decreases h.len() - i,
{
    if i >= h.len() || p.len() == 0 {
        h.subrange(i as int, h.len() as int)
    } else if i + p.len() <= h.len() && h.subrange(i as int, (i + p.len()) as int) == p {
        t + replace_from(h, p, t, i + p.len())
    } else {
        seq![h[i as int]] + replace_from(h, p, t, i + 1)
    }
}

/// `p` stands in `h` at position `j`.
pub open spec fn occurs_at(h: Seq<char>, p: Seq<char>, j: int) -> bool {
    0 <= j && j + p.len() <= h.len() && h.subrange(j, j + p.len()) == p
}

/// Replacing from `i` reads only `h[i..]`.
proof fn lemma_replace_local(h: Seq<char>, h2: Seq<char>, p: Seq<char>, t: Seq<char>, i: nat, j: nat)
    requires
        i <= h.len(),
        j <= h2.len(),
        h.subrange(i as int, h.len() as int) == h2.subrange(j as int, h2.len() as int),
    ensures
        replace_from(h, p, t, i) == replace_from(h2, p, t, j),
    decreases h.len() - i,
{
    let z = h.subrange(i as int, h.len() as int);
    assert(h.len() - i == h2.len() - j) by {
        assert(z.len() == h2.subrange(j as int, h2.len() as int).len());
    }
    if i < h.len() && p.len() > 0 {
        assert(h[i as int] == z[0]);
        assert(h2[j as int] == h2.subrange(j as int, h2.len() as int)[0]);
        if i + p.len() <= h.len() {
            assert(h.subrange(i as int, (i + p.len()) as int) =~= z.subrange(0, p.len() as int));
            assert(h2.subrange(j as int, (j + p.len()) as int) =~= h2.subrange(j as int, h2.len() as int).subrange(0, p.len() as int));
            assert(h.subrange((i + p.len()) as int, h.len() as int) =~= z.subrange(p.len() as int, z.len() as int));
            assert(h2.subrange((j + p.len()) as int, h2.len() as int) =~= h2.subrange(j as int, h2.len() as int).subrange(p.len() as int, z.len() as int));
            lemma_replace_local(h, h2, p, t, i + p.len(), j + p.len());
        }
        assert(h.subrange((i + 1) as int, h.len() as int) =~= z.subrange(1, z.len() as int));
        assert(h2.subrange((j + 1) as int, h2.len() as int) =~= h2.subrange(j as int, h2.len() as int).subrange(1, z.len() as int));
        lemma_replace_local(h, h2, p, t, i + 1, j + 1);
    }
}

/// Where `p` does not start anywhere in `[i, e)`, replacing from `i` copies `h[i..e]` and goes
/// on from `e`.
proof fn lemma_replace_copies(h: Seq<char>, p: Seq<char>, t: Seq<char>, i: nat, e: nat)
    requires
        i <= e <= h.len(),
        p.len() > 0,
        forall|j: int| i <= j < e ==> !#[trigger] occurs_at(h, p, j),
    ensures
        replace_from(h, p, t, i) == h.subrange(i as int, e as int) + replace_from(h, p, t, e),
    decreases e - i,
{
    if i < e {
        assert(!occurs_at(h, p, i as int));
        lemma_replace_copies(h, p, t, i + 1, e);
        assert(h.subrange(i as int, e as int) =~= seq![h[i as int]] + h.subrange(i + 1 as int, e as int));
    } else {
        assert(h.subrange(i as int, e as int) =~= Seq::<char>::empty());
    }
}

/// Where the name does not occur in a line, replacing it changes nothing.
pub proof fn lemma_replace_without_occurrence(h: Seq<char>, p: Seq<char>, t: Seq<char>)
    requires
        p.len() > 0,
        forall|j: int| 0 <= j < h.len() ==> !#[trigger] occurs_at(h, p, j),
    ensures
        replace_from(h, p, t, 0) == h,
{
    lemma_replace_copies(h, p, t, 0, h.len());
    assert(h.subrange(0, h.len() as int) =~= h);
    assert(replace_from(h, p, t, h.len()) =~= Seq::<char>::empty());
}

/// Replacement takes the first occurrence of the name and then goes on through the rest: where
/// `p` stands right after `x` and nowhere earlier, replacing in `x + p + y` gives `x`, then `t`,
/// then `y` with every occurrence replaced.
pub proof fn lemma_replace_first_then_rest(x: Seq<char>, p: Seq<char>, y: Seq<char>, t: Seq<char>)
    requires
        p.len() > 0,
        forall|j: int| 0 <= j < x.len() ==> !#[trigger] occurs_at(x + p + y, p, j),
    ensures
        replace_from(x + p + y, p, t, 0) == x + t + replace_from(y, p, t, 0),
{
    let h = x + p + y;
    lemma_replace_copies(h, p, t, 0, x.len());
    assert(h.subrange(0, x.len() as int) =~= x);
    assert(h.subrange(x.len() as int, (x.len() + p.len()) as int) =~= p);
    assert(h.subrange((x.len() + p.len()) as int, h.len() as int) =~= y.subrange(0, y.len() as int));
    lemma_replace_local(h, y, p, t, x.len() + p.len(), 0);
    assert(replace_from(h, p, t, x.len()) == t + replace_from(h, p, t, x.len() + p.len()));
    assert(x + (t + replace_from(y, p, t, 0)) =~= x + t + replace_from(y, p, t, 0));
}

/// With one macro, a line is expanded by replacing its name.
pub proof fn lemma_expand_one(name: Seq<char>, exp: Seq<char>, line: Seq<char>)
    ensures
        expand(seq![(name, exp)], line) == replace_from(line, name, exp, 0),
{
    let ms = seq![(name, exp)];
    assert(ms.drop_last() =~= Seq::<(Seq<char>, Seq<char>)>::empty());
    assert(ms.last() == (name, exp));
    assert(expand(ms.drop_last(), line) == line);
}

/// `line` after each macro in turn, first defined first.
pub open spec fn expand(ms: Seq<(Seq<char>, Seq<char>)>, line: Seq<char>) -> Seq<char>
    decreases ms.len(),
{
    if ms.len() == 0 {
        line
    } else {
        let m = ms.last();
        replace_from(expand(ms.drop_last(), line), m.0, m.1, 0)
    }
}

/// Index of the first line feed at or after `i`, or `s.len()`.
pub open spec fn line_end(s: Seq<char>, i: nat) -> nat
    decreases s.len() - i,
{
    if i < s.len() && s[i as int] != '\n' {
        line_end(s, i + 1)
    } else {
        i
    }
}

/// The lines of `s[i..]`, as `str::lines` cuts them: at each line feed, dropping a carriage
/// return before it; a last line without line feed counts, an empty one after it does not.
pub open spec fn lines_from(s: Seq<char>, i: nat) -> Seq<Seq<char>>
    decreases s.len() - i,
{
    if i >= s.len() {
        Seq::empty()
    } else {
        let e = line_end(s, i);
        if e >= s.len() {
            seq![s.subrange(i as int, s.len() as int)]
        } else {
            let l = s.subrange(i as int, e as int);
            let l = if l.len() > 0 && l.last() == '\r' { l.drop_last() } else { l };
            if e + 1 > i {
                seq![l] + lines_from(s, e + 1)
            } else {
                Seq::empty()
            }
        }
    }
}

/// Each line, expanded, followed by a line feed.
pub open spec fn preprocessed(ms: Seq<(Seq<char>, Seq<char>)>, lines: Seq<Seq<char>>) -> Seq<char>
    decreases lines.len(),
{
    if lines.len() == 0 {
        Seq::empty()
    } else {
        preprocessed(ms, lines.drop_last()) + expand(ms, lines.last()) + seq!['\n']
    }
}

/// Index of the first definition of `name` at or after `i`, or -1.
pub open spec fn macro_index(ms: Seq<(Seq<char>, Seq<char>)>, name: Seq<char>, i: nat) -> int
    decreases ms.len() - i,
{
    if i >= ms.len() {
        -1
    } else if ms[i as int].0 == name {
        i as int
    } else {
        macro_index(ms, name, i + 1)
    }
}

/// `ms` with `name` bound to `exp`: an existing definition replaced in place, or a new one last.
pub open spec fn define_in(ms: Seq<(Seq<char>, Seq<char>)>, name: Seq<char>, exp: Seq<char>) -> Seq<(Seq<char>, Seq<char>)> {
    let i = macro_index(ms, name, 0);
    if i >= 0 {
        ms.update(i, (name, exp))
    } else {
        ms.push((name, exp))
    }
}

/// The name and expansion of a definition line: the words `@macro`, the name, `->`, and the
/// expansion's words joined by single spaces.
pub open spec fn definition(source: Seq<char>) -> Option<(Seq<char>, Seq<char>)> {
    let w = words(source);
    if w.len() >= 3 && w[0] == "@macro"@ && w[2] == "->"@ {
        Some((w[1], join_words(w.subrange(3, w.len() as int))))
    } else {
        None
    }
}

/// The macros defined so far.
#[derive(Debug)]
pub struct Preprocessor {
    macro_symbols: Vec<(String, String)>,
}

pub open spec fn macros_view(v: Seq<(String, String)>) -> Seq<(Seq<char>, Seq<char>)> {
    Seq::new(v.len(), |i: int| (v[i].0@, v[i].1@))
}


/// The words of a line, as runs of characters.
fn words_exec(cs: &Vec<char>) -> (r: Vec<Vec<char>>)
    ensures
        r@.len() == words(cs@).len(),
        forall|j: int| 0 <= j < r@.len() ==> #[trigger] r@[j]@ == words(cs@)[j],
{
    let ghost s = cs@;
    let n = cs.len();
    let mut r: Vec<Vec<char>> = Vec::new();
    let mut i: usize = 0;
    while i < n
        invariant
            n == s.len(),
            s == cs@,
            i <= n,
            words(s) == r@.map_values(|w: Vec<char>| w@) + words_from(s, i as nat),
        decreases n - i,
    {
        if is_white_exec(cs[i]) {
            i = i + 1;
        } else {
            let mut w: Vec<char> = Vec::new();
            let mut e = i;
            while e < n && !is_white_exec(cs[e])
                invariant
                    n == s.len(),
                    s == cs@,
                    i <= e <= n,
                    word_end(s, e as nat) == word_end(s, i as nat),
                    w@ == s.subrange(i as int, e as int),
                decreases n - e,
            {
                w.push(cs[e]);
                assert(w@ =~= s.subrange(i as int, e + 1));
                e = e + 1;
            }
            assert(word_end(s, e as nat) == e);
            assert(words_from(s, i as nat) == seq![s.subrange(i as int, e as int)] + words_from(s, e as nat));
            let ghost before = r@.map_values(|w: Vec<char>| w@);
            r.push(w);
            assert(r@.map_values(|w: Vec<char>| w@) =~= before.push(s.subrange(i as int, e as int)));
            assert(before + words_from(s, i as nat) =~= r@.map_values(|w: Vec<char>| w@) + words_from(s, e as nat));
            i = e;
        }
    }
    assert(words_from(s, n as nat) =~= Seq::<Seq<char>>::empty());
    assert(words(s) =~= r@.map_values(|w: Vec<char>| w@));
    proof {
        assert forall|j: int| 0 <= j < r@.len() implies #[trigger] r@[j]@ == words(s)[j] by {
            assert(r@.map_values(|w: Vec<char>| w@)[j] == r@[j]@);
        }
    }
    r
}

/// A string of the characters of `v`.
fn chars_to_string(v: &Vec<char>) -> (r: String)
    ensures
        r@ == v@,
{
    let mut s = String::new();
    for i in 0..v.len()
        invariant
            s@ == v@.take(i as int),
    {
        push_char(&mut s, v[i]);
        assert(s@ =~= v@.take(i + 1));
    }
    assert(v@.take(v@.len() as int) =~= v@);
    s
}

/// The name and expansion of a definition line, or `None` where it is not one.
pub fn parse_definition(source: &str) -> (r: Option<(String, String)>)
    ensures
        match r {
            Some((name, exp)) => definition(source@) == Some((name@, exp@)),
            None => definition(source@) is None,
        },
{
    let cs = chars_of(source);
    let w = words_exec(&cs);
    let ghost ws = words(source@);
    if !(w.len() >= 3 && chars_are(&w[0], "@macro") && chars_are(&w[2], "->")) {
        return None;
    }
    let name = chars_to_string(&w[1]);
    let mut exp = String::new();
    let mut k: usize = 3;
    while k < w.len()
        invariant
            3 <= k <= w@.len(),
            w@.len() == ws.len(),
            ws == words(source@),
            forall|j: int| 0 <= j < w@.len() ==> #[trigger] w@[j]@ == ws[j],
            exp@ == join_words(ws.subrange(3, k as int)),
        decreases w@.len() - k,
    {
        if k > 3 {
            push_char(&mut exp, ' ');
        }
        let piece = chars_to_string(&w[k]);
        exp.append(piece.as_str());
        assert(ws.subrange(3, k + 1).drop_last() =~= ws.subrange(3, k as int));
        k = k + 1;
    }
    Some((name, exp))
}


proof fn lemma_words_nonempty(s: Seq<char>, i: nat)
    ensures
        forall|j: int| 0 <= j < words_from(s, i).len() ==> #[trigger] words_from(s, i)[j].len() > 0,
    decreases s.len() - i,
{
    if i < s.len() {
        if is_white(s[i as int]) {
            lemma_words_nonempty(s, i + 1);
            assert(words_from(s, i) == words_from(s, i + 1));
        } else {
            let e = word_end(s, i);
            if i < e <= s.len() {
                lemma_words_nonempty(s, e);
                let w = words_from(s, i);
                assert forall|j: int| 0 <= j < w.len() implies #[trigger] w[j].len() > 0 by {
                    if j == 0 {
                        assert(w[0] == s.subrange(i as int, e as int));
                    } else {
                        assert(w[j] == words_from(s, e)[j - 1]);
                        assert(words_from(s, e)[j - 1].len() > 0);
                    }
                }
            }
        }
    }
}

/// Whether `p` stands in `h` at `i`.
fn matches_at(h: &Vec<char>, i: usize, p: &Vec<char>) -> (r: bool)
    requires
        i + p@.len() <= h@.len(),
    ensures
        r == (h@.subrange(i as int, (i + p@.len()) as int) == p@),
{
    let m = p.len();
    let n = h.len();
    let mut k: usize = 0;
    while k < m
        invariant
            m == p@.len(),
            n == h@.len(),
            i + m <= n,
            k <= m,
            forall|j: int| 0 <= j < k ==> h@[i + j] == p@[j],
        decreases m - k,
    {
        if h[i + k] != p[k] {
            assert(h@.subrange(i as int, (i + m) as int)[k as int] != p@[k as int]);
            return false;
        }
        k = k + 1;
    }
    assert(h@.subrange(i as int, (i + m) as int) =~= p@);
    true
}

/// `h` with every occurrence of `p` replaced by `t`, from left to right, without overlaps.
fn replace_exec(h: &Vec<char>, p: &Vec<char>, t: &Vec<char>) -> (r: Vec<char>)
    requires
        p@.len() > 0,
    ensures
        r@ == replace_from(h@, p@, t@, 0),
{
    let n = h.len();
    let m = p.len();
    let mut out: Vec<char> = Vec::new();
    let mut i: usize = 0;
    while i < n
        invariant
            n == h@.len(),
            m == p@.len(),
            m > 0,
            i <= n,
            out@ + replace_from(h@, p@, t@, i as nat) == replace_from(h@, p@, t@, 0),
        decreases n - i,
    {
        let matched = m <= n - i && matches_at(h, i, p);
        let ghost before = out@;
        if matched {
            for j in 0..t.len()
                invariant
                    out@ == before + t@.take(j as int),
            {
                out.push(t[j]);
                assert(out@ =~= before + t@.take(j + 1));
            }
            assert(t@.take(t@.len() as int) =~= t@);
            assert(before + (t@ + replace_from(h@, p@, t@, (i + m) as nat)) =~= out@ + replace_from(h@, p@, t@, (i + m) as nat));
            i = i + m;
        } else {
            out.push(h[i]);
            assert(before + (seq![h@[i as int]] + replace_from(h@, p@, t@, (i + 1) as nat)) =~= out@ + replace_from(h@, p@, t@, (i + 1) as nat));
            i = i + 1;
        }
    }
    assert(h@.subrange(n as int, n as int) =~= Seq::<char>::empty());
    assert(out@ + Seq::<char>::empty() =~= out@);
    out
}

impl Preprocessor {
    /// The definitions, first defined first.
    pub closed spec fn macros(&self) -> Seq<(Seq<char>, Seq<char>)> {
        macros_view(self.macro_symbols@)
    }

    /// Every name is non-empty.
    #[verifier::type_invariant]
    spec fn wf(&self) -> bool {
        forall|i: int| 0 <= i < self.macro_symbols@.len() ==> #[trigger] self.macro_symbols@[i].0@.len() > 0
    }

    /// Whether the first word of `line` is `@macro`.
    pub fn is_macro_def(line: &str) -> (r: bool)
        ensures
            r == (words(line@).len() > 0 && words(line@)[0] == "@macro"@),
    {
        let cs = chars_of(line);
        let w = words_exec(&cs);
        w.len() > 0 && chars_are(&w[0], "@macro")
    }

    /// Records the definition on the line `source`.
    pub fn define(&mut self, source: &str)
        requires
            definition(source@) is Some,
        ensures
            final(self).macros() == define_in(
                old(self).macros(),
                definition(source@).unwrap().0,
                definition(source@).unwrap().1,
            ),
    {
        proof {
            use_type_invariant(&*self);
        }
        let (name, exp) = match parse_definition(source) {
            Some(d) => d,
            None => return,
        };
        proof {
            lemma_words_nonempty(source@, 0);
            assert(words_from(source@, 0)[1].len() > 0);
        }
        let ghost ms = self.macros();
        let ghost nv = name@;
        let ghost ev = exp@;
        let mut symbols: Vec<(String, String)> = Vec::new();
        std::mem::swap(&mut symbols, &mut self.macro_symbols);
        let n = symbols.len();
        let mut i: usize = 0;
        while i < n
            invariant
                n == symbols@.len(),
                ms == macros_view(symbols@),
                ms.len() == n,
                nv == name@,
                ev == exp@,
                nv.len() > 0,
                definition(source@) == Some((nv, ev)),
                ms == old(self).macros(),
                forall|j: int| 0 <= j < symbols@.len() ==> #[trigger] symbols@[j].0@.len() > 0,
                i <= n,
                macro_index(ms, nv, 0) == macro_index(ms, nv, i as nat),
            decreases n - i,
        {
            if symbols[i].0 == name {
                assert(macro_index(ms, nv, i as nat) == i);
                let ghost before = symbols@;
                symbols.set(i, (name, exp));
                assert(macros_view(symbols@) =~= ms.update(i as int, (nv, ev)));
                assert forall|j: int| 0 <= j < symbols@.len() implies #[trigger] symbols@[j].0@.len() > 0 by {
                    if j != i {
                        assert(symbols@[j] == before[j]);
                    }
                }
                self.macro_symbols = symbols;
                assert(self.macros() == define_in(ms, nv, ev));
                assert(definition(source@) == Some((nv, ev)));
                return;
            }
            i = i + 1;
        }
        let ghost before = symbols@;
        symbols.push((name, exp));
        assert(macros_view(symbols@) =~= ms.push((nv, ev)));
        assert forall|j: int| 0 <= j < symbols@.len() implies #[trigger] symbols@[j].0@.len() > 0 by {
            if j < before.len() {
                assert(symbols@[j] == before[j]);
            }
        }
        self.macro_symbols = symbols;
    }

    /// Replaces, on each line of `source`, every occurrence of each name by its expansion (the
    /// first definition first), and ends every line with a line feed.
    pub fn preprocess(&self, source: &mut String)
        ensures
            final(source)@ == preprocessed(self.macros(), lines_from(old(source)@, 0)),
    {
        proof {
            use_type_invariant(self);
        }
        let cs = chars_of(source.as_str());
        let ghost s = cs@;
        let ghost ms = self.macros();
        let n = cs.len();
        let mut output = String::new();
        let mut i: usize = 0;
        let ghost mut done: Seq<Seq<char>> = Seq::empty();
        while i < n
            invariant
                n == s.len(),
                s == cs@,
                s == old(source)@,
                ms == self.macros(),
                self.wf(),
                i <= n,
                done + lines_from(s, i as nat) == lines_from(s, 0),
                output@ == preprocessed(ms, done),
            decreases n - i,
        {
            let mut e = i;
            while e < n && cs[e] != '\n'
                invariant
                    n == s.len(),
                    s == cs@,
                    i <= e <= n,
                    line_end(s, e as nat) == line_end(s, i as nat),
                decreases n - e,
            {
                e = e + 1;
            }
            let mut line: Vec<char> = Vec::new();
            for k in i..e
                invariant
                    i <= e <= n,
                    n == s.len(),
                    s == cs@,
                    line@ == s.subrange(i as int, k as int),
            {
                line.push(cs[k]);
                assert(line@ =~= s.subrange(i as int, k + 1));
            }
            assert(line@ =~= s.subrange(i as int, e as int));
            let next: usize;
            if e < n {
                if line.len() > 0 && line[line.len() - 1] == '\r' {
                    let _ = line.pop();
                }
                next = e + 1;
            } else {
                next = n;
            }
            let ghost lv = line@;
            // expand
            let mut k: usize = 0;
            let m = self.macro_symbols.len();
            assert(expand(ms.take(0), lv) == lv);
            while k < m
                invariant
                    m == self.macro_symbols@.len(),
                    ms == self.macros(),
                    self.wf(),
                    k <= m,
                    line@ == expand(ms.take(k as int), lv),
                decreases m - k,
            {
                let pc = chars_of(self.macro_symbols[k].0.as_str());
                let tc = chars_of(self.macro_symbols[k].1.as_str());
                line = replace_exec(&line, &pc, &tc);
                assert(ms.take(k + 1).drop_last() =~= ms.take(k as int));
                k = k + 1;
            }
            assert(ms.take(m as int) =~= ms);
            let text = chars_to_string(&line);
            output.append(text.as_str());
            push_char(&mut output, '\n');
            proof {
                assert(lines_from(s, i as nat) == seq![lv] + lines_from(s, next as nat)) by {
                    if e >= n {
                        assert(lines_from(s, next as nat) =~= Seq::<Seq<char>>::empty());
                        assert(seq![lv] + Seq::<Seq<char>>::empty() =~= seq![lv]);
                    }
                }
                assert(done.push(lv).drop_last() =~= done);
                assert(done.push(lv) + lines_from(s, next as nat) =~= done + lines_from(s, i as nat));
                done = done.push(lv);
            }
            i = next;
        }
        assert(done =~= lines_from(s, 0)) by {
            assert(lines_from(s, i as nat) =~= Seq::<Seq<char>>::empty());
            assert(done + Seq::<Seq<char>>::empty() =~= done);
        }
        *source = output;
    }
}

/// Defining a name a second time replaces its first expansion: the list is as if only the
/// second definition had been made.
pub proof fn lemma_define_twice(ms: Seq<(Seq<char>, Seq<char>)>, name: Seq<char>, e1: Seq<char>, e2: Seq<char>)
    ensures
        define_in(define_in(ms, name, e1), name, e2) == define_in(ms, name, e2),
{
    let i = macro_index(ms, name, 0);
    lemma_macro_index(ms, name, 0);
    let ms1 = define_in(ms, name, e1);
    lemma_macro_index(ms1, name, 0);
    if i >= 0 {
        assert(ms1[i].0 == name);
        assert(macro_index(ms1, name, 0) == i);
        assert(ms1.update(i, (name, e2)) =~= ms.update(i, (name, e2)));
    } else {
        assert(ms1[ms.len() as int].0 == name);
        assert(macro_index(ms1, name, 0) == ms.len());
        assert(ms1.update(ms.len() as int, (name, e2)) =~= ms.push((name, e2)));
    }
}

/// After a definition, the name's first entry holds the new expansion, and every other name
/// keeps the entry it had.
pub proof fn lemma_define_then_find(ms: Seq<(Seq<char>, Seq<char>)>, name: Seq<char>, exp: Seq<char>, other: Seq<char>)
    ensures
        macro_index(define_in(ms, name, exp), name, 0) >= 0,
        define_in(ms, name, exp)[macro_index(define_in(ms, name, exp), name, 0)] == (name, exp),
        other != name ==> macro_index(define_in(ms, name, exp), other, 0) == macro_index(ms, other, 0),
        other != name && macro_index(ms, other, 0) >= 0 ==> define_in(ms, name, exp)[macro_index(ms, other, 0)]
            == ms[macro_index(ms, other, 0)],
{
    let ms1 = define_in(ms, name, exp);
    lemma_macro_index(ms, name, 0);
    lemma_macro_index(ms1, name, 0);
    lemma_macro_index(ms, other, 0);
    lemma_macro_index(ms1, other, 0);
    let i = macro_index(ms, name, 0);
    if i >= 0 {
        assert(ms1[i].0 == name);
    } else {
        assert(ms1[ms.len() as int].0 == name);
    }
    if other != name {
        let a = macro_index(ms, other, 0);
        let b = macro_index(ms1, other, 0);
        if a >= 0 {
            assert(ms1[a].0 == other);
        }
        if b >= 0 {
            assert(ms1[b].0 == other);
            assert(b < ms.len());
        }
        assert(a == b);
    }
}

proof fn lemma_macro_index(ms: Seq<(Seq<char>, Seq<char>)>, name: Seq<char>, i: nat)
    ensures
        macro_index(ms, name, i) == -1 ==> forall|j: int| i <= j < ms.len() ==> #[trigger] ms[j].0 != name,
        macro_index(ms, name, i) != -1 ==> i <= macro_index(ms, name, i) < ms.len() && ms[macro_index(ms, name, i)].0 == name
            && forall|j: int| i <= j < macro_index(ms, name, i) ==> #[trigger] ms[j].0 != name,
    decreases ms.len() - i,
{
    if i < ms.len() && ms[i as int].0 != name {
        lemma_macro_index(ms, name, i + 1);
    }
}

/// Every line that `define` accepts is one that `is_macro_def` recognises.
pub proof fn lemma_definition_is_macro_def(line: Seq<char>)
    requires
        definition(line) is Some,
    ensures
        words(line).len() > 0 && words(line)[0] == "@macro"@,
{
}

/// With no macros, preprocessing only ends every line with a single line feed.
pub proof fn lemma_preprocess_without_macros(lines: Seq<Seq<char>>)
    ensures
        preprocessed(Seq::empty(), lines) == lines_joined(lines),
    decreases lines.len(),
{
    if lines.len() > 0 {
        lemma_preprocess_without_macros(lines.drop_last());
    }
}

/// Each line followed by a line feed.
pub open spec fn lines_joined(lines: Seq<Seq<char>>) -> Seq<char>
    decreases lines.len(),
{
    if lines.len() == 0 {
        Seq::empty()
    } else {
        lines_joined(lines.drop_last()) + lines.last() + seq!['\n']
    }
}

/// Whether a line ends with a carriage return.
pub open spec fn ends_with_cr(l: Seq<char>) -> bool {
    l.len() > 0 && l.last() == '\r'
}

proof fn lemma_line_end(s: Seq<char>, i: nat)
    requires
        i <= s.len(),
    ensures
        i <= line_end(s, i) <= s.len(),
        forall|j: int| i <= j < line_end(s, i) ==> s[j] != '\n',
        line_end(s, i) < s.len() ==> s[line_end(s, i) as int] == '\n',
    decreases s.len() - i,
{
    if i < s.len() && s[i as int] != '\n' {
        lemma_line_end(s, i + 1);
    }
}

/// Where the characters from `i` up to `e` are no line feed and a line feed stands at `e`,
/// the line from `i` ends at `e`.
proof fn lemma_line_end_at(s: Seq<char>, i: nat, e: nat)
    requires
        i <= e < s.len(),
        forall|j: int| i <= j < e ==> s[j] != '\n',
        s[e as int] == '\n',
    ensures
        line_end(s, i) == e,
    decreases e - i,
{
    if i < e {
        lemma_line_end_at(s, i + 1, e);
    }
}

/// No line that `lines_from` cuts holds a line feed.
proof fn lemma_lines_no_lf(s: Seq<char>, i: nat)
    ensures
        forall|k: int, j: int| 0 <= k < lines_from(s, i).len() && 0 <= j < lines_from(s, i)[k].len()
            ==> #[trigger] lines_from(s, i)[k][j] != '\n',
    decreases s.len() - i,
{
    if i < s.len() {
        lemma_line_end(s, i);
        let e = line_end(s, i);
        if e < s.len() {
            lemma_lines_no_lf(s, e + 1);
            let l = s.subrange(i as int, e as int);
            let l2 = if l.len() > 0 && l.last() == '\r' { l.drop_last() } else { l };
            let rest = lines_from(s, e + 1);
            assert(lines_from(s, i) == seq![l2] + rest);
            assert forall|k: int, j: int| 0 <= k < lines_from(s, i).len() && 0 <= j < lines_from(s, i)[k].len()
                implies #[trigger] lines_from(s, i)[k][j] != '\n' by {
                if k == 0 {
                    assert(lines_from(s, i)[k][j] == s[i + j]);
                } else {
                    assert(lines_from(s, i)[k] == rest[k - 1]);
                }
            }
        } else {
            assert forall|k: int, j: int| 0 <= k < lines_from(s, i).len() && 0 <= j < lines_from(s, i)[k].len()
                implies #[trigger] lines_from(s, i)[k][j] != '\n' by {
                assert(lines_from(s, i)[k][j] == s[i + j]);
            }
        }
    }
}

/// Joining lines splits at any line: the lines before it, then the lines from it.
proof fn lemma_joined_split(lines: Seq<Seq<char>>, k: int)
    requires
        0 <= k <= lines.len(),
    ensures
        lines_joined(lines) == lines_joined(lines.take(k)) + lines_joined(lines.skip(k)),
    decreases lines.len(),
{
    if k == lines.len() {
        assert(lines.take(k) =~= lines);
        assert(lines.skip(k) =~= Seq::<Seq<char>>::empty());
        assert(lines_joined(lines) + Seq::<char>::empty() =~= lines_joined(lines));
    } else {
        let d = lines.drop_last();
        lemma_joined_split(d, k);
        assert(d.take(k) =~= lines.take(k));
        assert(lines.skip(k).drop_last() =~= d.skip(k));
        assert(lines.skip(k).last() == lines.last());
        assert(lines_joined(lines) =~= lines_joined(lines.take(k)) + lines_joined(lines.skip(k)));
    }
}

/// Cutting the joined lines from the start of line `k` gives back the lines from `k`, where no
/// line holds a line feed or ends with a carriage return.
proof fn lemma_lines_of_joined_from(lines: Seq<Seq<char>>, k: int)
    requires
        0 <= k <= lines.len(),
        forall|m: int, j: int| 0 <= m < lines.len() && 0 <= j < lines[m].len() ==> #[trigger] lines[m][j] != '\n',
        forall|m: int| 0 <= m < lines.len() ==> !ends_with_cr(#[trigger] lines[m]),
    ensures
        lines_from(lines_joined(lines), lines_joined(lines.take(k)).len()) == lines.skip(k),
    decreases lines.len() - k,
{
    let jn = lines_joined(lines);
    let start = lines_joined(lines.take(k)).len();
    lemma_joined_split(lines, k);
    if k == lines.len() {
        assert(lines.take(k) =~= lines);
        assert(lines.skip(k) =~= Seq::<Seq<char>>::empty());
    } else {
        let l = lines[k];
        let m = lines.skip(k);
        lemma_joined_split(m, 1);
        assert(m.take(1).drop_last() =~= Seq::<Seq<char>>::empty());
        assert(m.take(1).last() == l);
        assert(lines_joined(m.take(1).drop_last()) == Seq::<char>::empty());
        assert(lines_joined(m.take(1)) == lines_joined(m.take(1).drop_last()) + l + seq!['\n']);
        assert(lines_joined(m.take(1)) =~= l + seq!['\n']);
        assert(m.skip(1) =~= lines.skip(k + 1));
        assert(lines.take(k + 1).drop_last() =~= lines.take(k));
        assert(lines_joined(lines.take(k + 1)).len() == start + l.len() + 1);
        let e = start + l.len();
        assert(jn =~= lines_joined(lines.take(k)) + (l + seq!['\n']) + lines_joined(lines.skip(k + 1)));
        assert forall|j: int| start <= j < e implies jn[j] != '\n' by {
            assert(jn[j] == l[j - start]);
            assert(lines[k][j - start] != '\n');
        }
        assert(jn[e as int] == '\n');
        lemma_line_end_at(jn, start, e);
        assert(jn.subrange(start as int, e as int) =~= l);
        assert(!ends_with_cr(lines[k]));
        lemma_lines_of_joined_from(lines, k + 1);
        assert(lines_from(jn, start) == seq![l] + lines_from(jn, e + 1));
        assert(seq![l] + lines.skip(k + 1) =~= lines.skip(k));
    }
}

/// Preprocessing without macros a second time changes nothing, where no line of the text ends
/// with a carriage return.
pub proof fn lemma_preprocess_twice_without_macros(s: Seq<char>)
    requires
        forall|k: int| 0 <= k < lines_from(s, 0).len() ==> !ends_with_cr(#[trigger] lines_from(s, 0)[k]),
    ensures
        preprocessed(Seq::empty(), lines_from(preprocessed(Seq::empty(), lines_from(s, 0)), 0))
            == preprocessed(Seq::empty(), lines_from(s, 0)),
{
    let lines = lines_from(s, 0);
    lemma_preprocess_without_macros(lines);
    lemma_lines_no_lf(s, 0);
    lemma_lines_of_joined_from(lines, 0);
    assert(lines.take(0) =~= Seq::<Seq<char>>::empty());
    assert(lines.skip(0) =~= lines);
}

impl Clone for Preprocessor {
    fn clone(&self) -> (r: Preprocessor)
        ensures
            r.macros() == self.macros(),
    {
        proof {
            use_type_invariant(self);
        }
        let mut copied: Vec<(String, String)> = Vec::new();
        let n = self.macro_symbols.len();
        for i in 0..n
            invariant
                n == self.macro_symbols@.len(),
                self.wf(),
                copied@.len() == i,
                macros_view(copied@) == macros_view(self.macro_symbols@).take(i as int),
                forall|j: int| 0 <= j < copied@.len() ==> #[trigger] copied@[j].0@.len() > 0,
        {
            let name = self.macro_symbols[i].0.clone();
            let exp = self.macro_symbols[i].1.clone();
            let ghost before = copied@;
            assert(name@ == self.macro_symbols@[i as int].0@);
            assert(exp@ == self.macro_symbols@[i as int].1@);
            copied.push((name, exp));
            assert(macros_view(copied@)[i as int] == macros_view(self.macro_symbols@)[i as int]);
            assert forall|j: int| 0 <= j < i implies #[trigger] macros_view(copied@)[j] == macros_view(self.macro_symbols@)[j] by {
                assert(copied@[j] == before[j]);
                assert(macros_view(before)[j] == macros_view(self.macro_symbols@).take(i as int)[j]);
            }
            assert(macros_view(copied@) =~= macros_view(self.macro_symbols@).take(i + 1));
            assert forall|j: int| 0 <= j < copied@.len() implies #[trigger] copied@[j].0@.len() > 0 by {
                if j < i {
                    assert(copied@[j] == before[j]);
                }
            }
        }
        assert(macros_view(self.macro_symbols@).take(n as int) =~= macros_view(self.macro_symbols@));
        let r = Preprocessor { macro_symbols: copied };
        r
    }
}

impl Default for Preprocessor {
    fn default() -> (r: Preprocessor)
        ensures
            r.macros() == Seq::<(Seq<char>, Seq<char>)>::empty(),
    {
        let r = Preprocessor { macro_symbols: Vec::new() };
        assert(r.macros() =~= Seq::<(Seq<char>, Seq<char>)>::empty());
        r
    }
}

} // verus!
