//! Strings as the library reads them: equality and order by bytes, and the
//! trimmed lines of a pasted text.

use vstd::prelude::*;

pub mod laws;

verus! {

// ------------------------------------------------------------------ order

/// Lexicographic order on byte strings, a proper prefix coming first.
pub open spec fn bytes_le(a: Seq<u8>, b: Seq<u8>) -> bool
    decreases a.len(),
{
    if a.len() == 0 {
        true
    } else if b.len() == 0 {
        false
    } else {
        a[0] < b[0] || (a[0] == b[0] && bytes_le(a.drop_first(), b.drop_first()))
    }
}

/// The order strings sort in: by the bytes of their UTF-8 form.
pub open spec fn str_le(a: Seq<char>, b: Seq<char>) -> bool {
    bytes_le(vstd::utf8::encode_utf8(a), vstd::utf8::encode_utf8(b))
}

proof fn lemma_bytes_le_reflexive(a: Seq<u8>)
    ensures
        bytes_le(a, a),
    decreases a.len(),
{
    if a.len() > 0 {
        lemma_bytes_le_reflexive(a.drop_first());
    }
}

proof fn lemma_bytes_le_antisymmetric(a: Seq<u8>, b: Seq<u8>)
    requires
        bytes_le(a, b),
        bytes_le(b, a),
    ensures
        a == b,
    decreases a.len(),
{
    if a.len() > 0 {
        lemma_bytes_le_antisymmetric(a.drop_first(), b.drop_first());
        assert(a =~= seq![a[0]] + a.drop_first());
        assert(b =~= seq![b[0]] + b.drop_first());
    } else {
        assert(a =~= b);
    }
}

proof fn lemma_bytes_le_transitive(a: Seq<u8>, b: Seq<u8>, c: Seq<u8>)
    requires
        bytes_le(a, b),
        bytes_le(b, c),
    ensures
        bytes_le(a, c),
    decreases a.len(),
{
    if a.len() > 0 && a[0] == b[0] && b[0] == c[0] {
        lemma_bytes_le_transitive(a.drop_first(), b.drop_first(), c.drop_first());
    }
}

proof fn lemma_bytes_le_connected(a: Seq<u8>, b: Seq<u8>)
    ensures
        bytes_le(a, b) || bytes_le(b, a),
    decreases a.len(),
{
    if a.len() > 0 && b.len() > 0 {
        lemma_bytes_le_connected(a.drop_first(), b.drop_first());
    }
}

/// Two strings with the same bytes are the same string.
pub proof fn lemma_same_bytes_same_chars(a: Seq<char>, b: Seq<char>)
    requires
        vstd::utf8::encode_utf8(a) == vstd::utf8::encode_utf8(b),
    ensures
        a == b,
{
    vstd::utf8::encode_utf8_decode_utf8(a);
    vstd::utf8::encode_utf8_decode_utf8(b);
}

/// The order strings sort in is a total order.
pub proof fn lemma_str_le_total()
    ensures
        forall|a: Seq<char>| #[trigger] str_le(a, a),
        forall|a: Seq<char>, b: Seq<char>|
            #[trigger] str_le(a, b) && #[trigger] str_le(b, a) ==> a == b,
        forall|a: Seq<char>, b: Seq<char>, c: Seq<char>|
            #[trigger] str_le(a, b) && #[trigger] str_le(b, c) ==> str_le(a, c),
        forall|a: Seq<char>, b: Seq<char>| #[trigger] str_le(a, b) || #[trigger] str_le(b, a),
{
    assert forall|a: Seq<char>| #[trigger] str_le(a, a) by {
        lemma_bytes_le_reflexive(vstd::utf8::encode_utf8(a));
    }
    assert forall|a: Seq<char>, b: Seq<char>| #[trigger]
        str_le(a, b) && #[trigger] str_le(b, a) implies a == b by {
        lemma_bytes_le_antisymmetric(vstd::utf8::encode_utf8(a), vstd::utf8::encode_utf8(b));
        lemma_same_bytes_same_chars(a, b);
    }
    assert forall|a: Seq<char>, b: Seq<char>, c: Seq<char>| #[trigger]
        str_le(a, b) && #[trigger] str_le(b, c) implies str_le(a, c) by {
        lemma_bytes_le_transitive(vstd::utf8::encode_utf8(a), vstd::utf8::encode_utf8(b), vstd::utf8::encode_utf8(c));
    }
    assert forall|a: Seq<char>, b: Seq<char>| #[trigger] str_le(a, b) || #[trigger] str_le(b, a) by {
        lemma_bytes_le_connected(vstd::utf8::encode_utf8(a), vstd::utf8::encode_utf8(b));
    }
}

/// Byte equality for two strings.
pub fn str_eq(a: &str, b: &str) -> (r: bool)
    ensures
        r == (a@ == b@),
{
    let x = a.as_bytes();
    let y = b.as_bytes();
    if x.len() != y.len() {
        return false;
    }
    let mut i: usize = 0;
    while i < x.len()
        invariant
            i <= x@.len(),
            x@.len() == y@.len(),
            x@ == vstd::utf8::encode_utf8(a@),
            y@ == vstd::utf8::encode_utf8(b@),
            forall|j: int| 0 <= j < i ==> x@[j] == y@[j],
        decreases x.len() - i,
    {
        if x[i] != y[i] {
            return false;
        }
        i += 1;
    }
    proof {
        assert(x@ =~= y@);
        lemma_same_bytes_same_chars(a@, b@);
    }
    true
}

/// Whether `a` sorts no later than `b`.
pub fn str_not_after(a: &str, b: &str) -> (r: bool)
    ensures
        r == str_le(a@, b@),
{
    let x = a.as_bytes();
    let y = b.as_bytes();
    let mut i: usize = 0;
    proof {
        assert(x@.skip(0) =~= x@);
        assert(y@.skip(0) =~= y@);
    }
    while i < x.len()
        invariant
            i <= x@.len(),
            i <= y@.len(),
            x@ == vstd::utf8::encode_utf8(a@),
            y@ == vstd::utf8::encode_utf8(b@),
            bytes_le(x@, y@) == bytes_le(x@.skip(i as int), y@.skip(i as int)),
        decreases x.len() - i,
    {
        if i == y.len() {
            return false;
        }
        if x[i] != y[i] {
            return x[i] < y[i];
        }
        proof {
            assert(x@.skip(i as int).drop_first() =~= x@.skip(i + 1));
            assert(y@.skip(i as int).drop_first() =~= y@.skip(i + 1));
        }
        i += 1;
    }
    true
}

// ------------------------------------------------------------------ lines

/// Unicode's White_Space property.
pub open spec fn is_white(c: char) -> bool {
    let u = c as u32;
    ||| 0x09 <= u <= 0x0D
    ||| u == 0x20
    ||| u == 0x85
    ||| u == 0xA0
    ||| u == 0x1680
    ||| 0x2000 <= u <= 0x200A
    ||| u == 0x2028
    ||| u == 0x2029
    ||| u == 0x202F
    ||| u == 0x205F
    ||| u == 0x3000
}

/// A text without its leading white space.
pub open spec fn trim_start(s: Seq<char>) -> Seq<char>
    decreases s.len(),
{
    if s.len() > 0 && is_white(s[0]) {
        trim_start(s.drop_first())
    } else {
        s
    }
}

/// A text without its trailing white space.
pub open spec fn trim_end(s: Seq<char>) -> Seq<char>
    decreases s.len(),
{
    if s.len() > 0 && is_white(s.last()) {
        trim_end(s.drop_last())
    } else {
        s
    }
}

/// A text without the white space around it.
pub open spec fn trim(s: Seq<char>) -> Seq<char> {
    trim_end(trim_start(s))
}

/// The length of the text up to its first line feed, or of all of it.
pub open spec fn line_len(s: Seq<char>) -> nat
    decreases s.len(),
{
    if s.len() == 0 || s[0] == '\n' {
        0
    } else {
        1 + line_len(s.drop_first())
    }
}

/// The lines of a text, each trimmed: what stands between its line feeds.
pub open spec fn trimmed_lines(s: Seq<char>) -> Seq<Seq<char>>
    decreases s.len(),
{
    let n = line_len(s) as int;
    if n >= s.len() {
        seq![trim(s)]
    } else {
        seq![trim(s.take(n))] + trimmed_lines(s.skip(n + 1))
    }
}

/// Whether `c` is white space.
pub fn is_whitespace(c: char) -> (r: bool)
    ensures
        r == is_white(c),
{
    let u: u32 = c as u32;
    (0x09 <= u && u <= 0x0D) || u == 0x20 || u == 0x85 || u == 0xA0 || u == 0x1680 || (0x2000 <= u
        && u <= 0x200A) || u == 0x2028 || u == 0x2029 || u == 0x202F || u == 0x205F || u == 0x3000
}

/// The characters of a text.
pub fn chars_of(s: &str) -> (r: Vec<char>)
    ensures
        r@ == s@,
{
    let mut out: Vec<char> = Vec::new();
    for c in it: s.chars()
        invariant
            it.seq() == s@,
            out@ == s@.take(it.index()),
    {
        out.push(c);
        proof {
            assert(s@.take(it.index() + 1) =~= s@.take(it.index()).push(s@[it.index()]));
        }
    }
    proof {
        assert(s@.take(s@.len() as int) =~= s@);
    }
    out
}

proof fn lemma_line_len_step(s: Seq<char>, i: int)
    requires
        0 <= i < s.len(),
        s[i] != '\n',
    ensures
        line_len(s.skip(i)) == 1 + line_len(s.skip(i + 1)),
{
    assert(s.skip(i).drop_first() =~= s.skip(i + 1));
}

/// A line never runs past the text.
pub proof fn lemma_line_len_bound(s: Seq<char>)
    ensures
        line_len(s) <= s.len(),
    decreases s.len(),
{
    if s.len() > 0 && s[0] != '\n' {
        lemma_line_len_bound(s.drop_first());
    }
}

/// Where what is left of `v[from..to]` starts and ends once it is trimmed.
pub fn trim_bounds(v: &Vec<char>, from: usize, to: usize) -> (r: (usize, usize))
    requires
        from <= to <= v@.len(),
    ensures
        from <= r.0 <= r.1 <= to,
        v@.subrange(r.0 as int, r.1 as int) == trim(v@.subrange(from as int, to as int)),
{
    let mut a: usize = from;
    let ghost whole = v@.subrange(from as int, to as int);
    while a < to && is_whitespace(v[a])
        invariant
            from <= a <= to <= v@.len(),
            whole == v@.subrange(from as int, to as int),
            trim_start(v@.subrange(a as int, to as int)) == trim_start(whole),
        decreases to - a,
    {
        proof {
            assert(v@.subrange(a as int, to as int).drop_first() =~= v@.subrange(a + 1, to as int));
        }
        a += 1;
    }
    let mut b: usize = to;
    let ghost started = v@.subrange(a as int, to as int);
    proof {
        assert(trim_start(whole) == started);
    }
    while a < b && is_whitespace(v[b - 1])
        invariant
            from <= a <= b <= to <= v@.len(),
            trim_end(v@.subrange(a as int, b as int)) == trim_end(started),
        decreases b - a,
    {
        proof {
            assert(v@.subrange(a as int, b as int).drop_last() =~= v@.subrange(a as int, b - 1));
        }
        b -= 1;
    }
    (a, b)
}

/// Where the line of `v[..to]` that starts at `from` ends.
fn line_end(v: &Vec<char>, from: usize, to: usize) -> (r: usize)
    requires
        from <= to <= v@.len(),
    ensures
        from <= r <= to,
        r == from + line_len(v@.subrange(from as int, to as int)),
{
    let ghost s = v@.subrange(from as int, to as int);
    let mut i: usize = from;
    proof {
        assert(s.skip(0) =~= s);
    }
    while i < to && v[i] != '\n'
        invariant
            from <= i <= to <= v@.len(),
            s == v@.subrange(from as int, to as int),
            line_len(s) == (i - from) + line_len(s.skip(i - from)),
        decreases to - i,
    {
        proof {
            lemma_line_len_step(s, i - from);
        }
        i += 1;
    }
    i
}

/// Where the lines of `v[from..to]` start and end, each trimmed.
pub fn line_bounds(v: &Vec<char>, from: usize, to: usize) -> (r: Vec<(usize, usize)>)
    requires
        from <= to <= v@.len(),
    ensures
        ({
            let lines = trimmed_lines(v@.subrange(from as int, to as int));
            &&& r@.len() == lines.len()
            &&& forall|i: int|
                0 <= i < r@.len() ==> (#[trigger] r@[i]).0 <= r@[i].1 <= v@.len() && v@.subrange(
                    r@[i].0 as int,
                    r@[i].1 as int,
                ) == lines[i]
        }),
{
    let ghost s = v@.subrange(from as int, to as int);
    let ghost lines = trimmed_lines(s);
    let mut out: Vec<(usize, usize)> = Vec::new();
    let mut i: usize = from;
    proof {
        assert(lines =~= lines.take(0) + trimmed_lines(s));
    }
    loop
        invariant_except_break
            from <= i <= to <= v@.len(),
            lines == lines.take(out@.len() as int) + trimmed_lines(v@.subrange(i as int, to as int)),
            out@.len() <= lines.len(),
            forall|k: int|
                0 <= k < out@.len() ==> (#[trigger] out@[k]).0 <= out@[k].1 <= v@.len()
                    && v@.subrange(out@[k].0 as int, out@[k].1 as int) == lines[k],
        ensures
            out@.len() == lines.len(),
            forall|k: int|
                0 <= k < out@.len() ==> (#[trigger] out@[k]).0 <= out@[k].1 <= v@.len()
                    && v@.subrange(out@[k].0 as int, out@[k].1 as int) == lines[k],
        decreases to - i,
    {
        let ghost rest = v@.subrange(i as int, to as int);
        let e: usize = line_end(v, i, to);
        let line = trim_bounds(v, i, e);
        proof {
            assert(rest.take(e - i) =~= v@.subrange(i as int, e as int));
            assert(trimmed_lines(rest).len() >= 1);
            assert(lines[out@.len() as int] == trimmed_lines(rest)[0]);
        }
        let ghost n = out@.len() as int;
        out.push(line);
        if e == to {
            break ;
        }
        proof {
            assert(rest.skip(e - i + 1) =~= v@.subrange(e + 1, to as int));
            assert(lines =~= lines.take(n + 1) + trimmed_lines(rest.skip(e - i + 1)));
        }
        i = e + 1;
    }
    out
}

// --------------------------------------------------------- laws of trimming

proof fn lemma_trim_start_stops(s: Seq<char>)
    ensures
        trim_start(s).len() <= s.len(),
        trim_start(s).len() > 0 ==> !is_white(trim_start(s)[0]),
        trim_start(s).len() > 0 ==> trim_start(s).last() == s.last(),
    decreases s.len(),
{
    if s.len() > 0 && is_white(s[0]) {
        lemma_trim_start_stops(s.drop_first());
    }
}

proof fn lemma_trim_end_stops(s: Seq<char>)
    ensures
        trim_end(s).len() <= s.len(),
        trim_end(s).len() > 0 ==> !is_white(trim_end(s).last()),
        trim_end(s).len() > 0 ==> trim_end(s)[0] == s[0],
    decreases s.len(),
{
    if s.len() > 0 && is_white(s.last()) {
        lemma_trim_end_stops(s.drop_last());
    }
}

/// What is left of a trimmed text neither starts nor ends with white space.
pub proof fn lemma_trimmed_edges(s: Seq<char>)
    ensures
        trim(s).len() <= s.len(),
        trim(s).len() > 0 ==> !is_white(trim(s)[0]) && !is_white(trim(s).last()),
{
    lemma_trim_start_stops(s);
    lemma_trim_end_stops(trim_start(s));
}

/// Trimming leaves a text alone that neither starts nor ends with white space.
pub proof fn lemma_trim_keeps(s: Seq<char>)
    requires
        s.len() > 0 ==> !is_white(s[0]) && !is_white(s.last()),
    ensures
        trim(s) == s,
{
}

/// Trimming twice does no more than trimming once.
pub proof fn lemma_trim_twice(s: Seq<char>)
    ensures
        trim(trim(s)) == trim(s),
{
    lemma_trimmed_edges(s);
    lemma_trim_keeps(trim(s));
}

proof fn lemma_trim_start_tail(s: Seq<char>, w: char)
    requires
        is_white(w),
    ensures
        trim(s.push(w)) == trim(s),
    decreases s.len(),
{
    if s.len() > 0 && is_white(s[0]) {
        lemma_trim_start_tail(s.drop_first(), w);
        assert(s.push(w).drop_first() =~= s.drop_first().push(w));
    } else if s.len() == 0 {
        assert(s.push(w).drop_first() =~= s);
    } else {
        assert(s.push(w).drop_last() =~= s);
    }
}

/// A text that holds something else than white space is not blank.
pub proof fn lemma_trim_not_blank(s: Seq<char>, k: int)
    requires
        0 <= k < s.len(),
        !is_white(s[k]),
    ensures
        trim(s).len() > 0,
    decreases s.len(),
{
    if is_white(s[0]) {
        lemma_trim_not_blank(s.drop_first(), k - 1);
    } else {
        lemma_trim_end_not_blank(s, k);
    }
}

proof fn lemma_trim_end_not_blank(s: Seq<char>, k: int)
    requires
        0 <= k < s.len(),
        !is_white(s[k]),
    ensures
        trim_end(s).len() > 0,
    decreases s.len(),
{
    if is_white(s.last()) {
        lemma_trim_end_not_blank(s.drop_last(), k);
    }
}

/// A text without a line feed is one line.
pub proof fn lemma_single_line(s: Seq<char>)
    requires
        forall|i: int| 0 <= i < s.len() ==> #[trigger] s[i] != '\n',
    ensures
        line_len(s) == s.len(),
        trimmed_lines(s) == seq![trim(s)],
    decreases s.len(),
{
    if s.len() > 0 {
        lemma_single_line(s.drop_first());
    }
}

proof fn lemma_line_len_concat(a: Seq<char>, b: Seq<char>)
    ensures
        line_len(a + seq!['\n'] + b) == line_len(a),
    decreases a.len(),
{
    let s = a + seq!['\n'] + b;
    if a.len() > 0 && a[0] != '\n' {
        assert(s.drop_first() =~= a.drop_first() + seq!['\n'] + b);
        lemma_line_len_concat(a.drop_first(), b);
    }
}

/// The lines of two texts with a line feed between them are the lines of the
/// one and then those of the other.
pub proof fn lemma_lines_concat(a: Seq<char>, b: Seq<char>)
    ensures
        trimmed_lines(a + seq!['\n'] + b) == trimmed_lines(a) + trimmed_lines(b),
    decreases a.len(),
{
    let s = a + seq!['\n'] + b;
    let n = line_len(a) as int;
    lemma_line_len_concat(a, b);
    lemma_line_len_bound(a);
    assert(s.take(n) =~= a.take(n));
    if n >= a.len() {
        assert(a.take(n) =~= a);
        assert(s.skip(n + 1) =~= b);
    } else {
        lemma_lines_concat(a.skip(n + 1), b);
        assert(s.skip(n + 1) =~= a.skip(n + 1) + seq!['\n'] + b);
        assert(trimmed_lines(s) =~= trimmed_lines(a) + trimmed_lines(b));
    }
}

/// Filtering a list of one.
pub proof fn lemma_filter_one<A>(x: A, keep: spec_fn(A) -> bool)
    ensures
        seq![x].filter(keep) == if keep(x) { seq![x] } else { seq![] },
{
    reveal(Seq::filter);
    assert(seq![x].drop_last() =~= Seq::<A>::empty());
    assert(seq![x].drop_last().filter(keep) =~= Seq::<A>::empty());
    assert(Seq::<A>::empty().push(x) =~= seq![x]);
}

/// White space at the start of a text leaves its lines alone that are not
/// blank.
proof fn lemma_lines_after_white(s: Seq<char>)
    requires
        s.len() > 0,
        is_white(s[0]),
    ensures
        trimmed_lines(s).filter(|l: Seq<char>| l.len() > 0) == trimmed_lines(
            s.drop_first(),
        ).filter(|l: Seq<char>| l.len() > 0),
{
    let r = |l: Seq<char>| l.len() > 0;
    let t = s.drop_first();
    if s[0] == '\n' {
        let none = Seq::<char>::empty();
        assert(s =~= none + seq!['\n'] + t);
        lemma_lines_concat(none, t);
        lemma_single_line(none);
        Seq::filter_distributes_over_add(seq![trim(none)], trimmed_lines(t), r);
        assert(trim(none) == none);
        lemma_filter_one(none, r);
        assert(trimmed_lines(s).filter(r) =~= trimmed_lines(t).filter(r));
    } else {
        let n = line_len(s) as int;
        lemma_line_len_bound(t);
        if n >= s.len() {
            assert(trim(s) == trim(t));
        } else {
            assert(s.take(n).drop_first() =~= t.take(n - 1));
            assert(s.skip(n + 1) =~= t.skip(n));
        }
        assert(trimmed_lines(s) =~= trimmed_lines(t));
    }
}

/// White space at the end of a text leaves its lines alone that are not
/// blank.
proof fn lemma_lines_before_white(s: Seq<char>, w: char)
    requires
        is_white(w),
    ensures
        trimmed_lines(s.push(w)).filter(|l: Seq<char>| l.len() > 0) == trimmed_lines(s).filter(
            |l: Seq<char>| l.len() > 0,
        ),
    decreases s.len(),
{
    let r = |l: Seq<char>| l.len() > 0;
    let t = s.push(w);
    if w == '\n' {
        let none = Seq::<char>::empty();
        assert(t =~= s + seq!['\n'] + none);
        lemma_lines_concat(s, none);
        lemma_single_line(none);
        Seq::filter_distributes_over_add(trimmed_lines(s), seq![trim(none)], r);
        assert(trim(none) == none);
        lemma_filter_one(none, r);
        assert(t == s + seq!['\n'] + none);
        assert(trimmed_lines(t).filter(r) =~= trimmed_lines(s).filter(r));
    } else {
        lemma_line_len_bound(s);
        let n = line_len(s) as int;
        lemma_line_len_push(s, w);
        if n >= s.len() {
            lemma_trim_start_tail(s, w);
        } else {
            lemma_lines_before_white(s.skip(n + 1), w);
            assert(t.take(n) =~= s.take(n));
            assert(t.skip(n + 1) =~= s.skip(n + 1).push(w));
            let first = seq![trim(s.take(n))];
            Seq::filter_distributes_over_add(first, trimmed_lines(s.skip(n + 1)), r);
            Seq::filter_distributes_over_add(first, trimmed_lines(t.skip(n + 1)), r);
        }
    }
}

proof fn lemma_line_len_push(s: Seq<char>, w: char)
    requires
        w != '\n',
    ensures
        line_len(s.push(w)) == if line_len(s) == s.len() { line_len(s) + 1 } else { line_len(s) },
    decreases s.len(),
{
    lemma_line_len_bound(s);
    if s.len() == 0 {
        assert(s.push(w).drop_first() =~= s);
    } else if s[0] != '\n' {
        assert(s.push(w).drop_first() =~= s.drop_first().push(w));
        lemma_line_len_push(s.drop_first(), w);
    }
}

/// Where all that a text says fits on one line, that is its only line that is
/// not blank.
pub proof fn lemma_single_content(s: Seq<char>)
    requires
        trim(s).len() > 0,
        forall|i: int| 0 <= i < trim(s).len() ==> #[trigger] trim(s)[i] != '\n',
    ensures
        trimmed_lines(s).filter(|l: Seq<char>| l.len() > 0) == seq![trim(s)],
    decreases s.len(),
{
    if is_white(s[0]) {
        lemma_lines_after_white(s);
        lemma_single_content(s.drop_first());
    } else if is_white(s.last()) {
        let t = s.drop_last();
        assert(t.push(s.last()) =~= s);
        lemma_trim_start_tail(t, s.last());
        lemma_lines_before_white(t, s.last());
        lemma_single_content(t);
    } else {
        lemma_single_line(s);
        lemma_filter_one(s, |l: Seq<char>| l.len() > 0);
    }
}

} // verus!
