//! Hierarchical dot-delimited tags.
//!
//! A tag is an ordered, non-empty sequence of components. Parsing splits the
//! input on the separator, trims whitespace around each piece, drops pieces
//! that trim to nothing, and requires every surviving piece to consist of
//! ASCII graphic characters only. Rendering joins the components with the
//! separator; `parse(render(t))` recovers `t`, though parsing does not
//! preserve redundant separators or surrounding whitespace of its input.
use vstd::prelude::*;

verus! {

/// The Unicode `White_Space` code points, the characters that trimming
/// removes from the ends of a component (the same set `str::trim` uses).
pub open spec fn is_space_char(c: char) -> bool {
    let n = c as u32;
    (0x09 <= n && n <= 0x0d) || n == 0x20 || n == 0x85 || n == 0xa0 || n == 0x1680 || (0x2000
        <= n && n <= 0x200a) || n == 0x2028 || n == 0x2029 || n == 0x202f || n == 0x205f || n
        == 0x3000
}

/// ASCII graphic: printable, non-space, non-control. Exactly these characters
/// may appear in a tag component.
pub open spec fn is_graphic_char(c: char) -> bool {
    0x21 <= c as u32 && c as u32 <= 0x7e
}

/// Every character of `p` is ASCII graphic.
pub open spec fn graphic_seq(p: Seq<char>) -> bool {
    forall|i: int| 0 <= i < p.len() ==> is_graphic_char(#[trigger] p[i])
}

/// `p` contains no separator.
pub open spec fn no_sep(p: Seq<char>) -> bool {
    forall|i: int| 0 <= i < p.len() ==> #[trigger] p[i] != '.'
}

/// The views of a sequence of strings.
pub open spec fn strs_view(v: Seq<String>) -> Seq<Seq<char>> {
    v.map_values(|c: String| c@)
}

/// The canonical text of a component sequence: the components joined by the
/// separator.
pub open spec fn render_spec(ps: Seq<Seq<char>>) -> Seq<char>
    decreases ps.len(),
{
    if ps.len() == 0 {
        Seq::empty()
    } else if ps.len() == 1 {
        ps[0]
    } else {
        ps[0] + seq!['.'] + render_spec(ps.drop_first())
    }
}

/// The pieces of `s` between occurrences of the separator, in order.
/// Splitting never yields an empty sequence of pieces: an input without a
/// separator is one piece (possibly empty).
pub open spec fn split_spec(s: Seq<char>) -> Seq<Seq<char>>
    decreases s.len(),
{
    if s.len() == 0 {
        seq![Seq::<char>::empty()]
    } else if s[0] == '.' {
        seq![Seq::<char>::empty()] + split_spec(s.drop_first())
    } else {
        let rest = split_spec(s.drop_first());
        seq![seq![s[0]] + rest[0]] + rest.drop_first()
    }
}

/// `s` without its leading whitespace.
pub open spec fn trim_start_spec(s: Seq<char>) -> Seq<char>
    decreases s.len(),
{
    if s.len() > 0 && is_space_char(s[0]) {
        trim_start_spec(s.drop_first())
    } else {
        s
    }
}

/// `s` without its trailing whitespace.
pub open spec fn trim_end_spec(s: Seq<char>) -> Seq<char>
    decreases s.len(),
{
    if s.len() > 0 && is_space_char(s.last()) {
        trim_end_spec(s.drop_last())
    } else {
        s
    }
}

/// `s` without leading and trailing whitespace.
pub open spec fn trim_spec(s: Seq<char>) -> Seq<char> {
    trim_end_spec(trim_start_spec(s))
}

/// Every piece of `ps`, trimmed.
pub open spec fn trimmed_pieces(ps: Seq<Seq<char>>) -> Seq<Seq<char>> {
    ps.map_values(|p: Seq<char>| trim_spec(p))
}

/// The pieces of `ps` that are not empty, in order.
pub open spec fn keep_nonempty(ps: Seq<Seq<char>>) -> Seq<Seq<char>> {
    ps.filter(|p: Seq<char>| p.len() > 0)
}

/// The surviving pieces of `s`: split on the separator, trim each piece,
/// drop the pieces that trim to nothing. These are the components of the tag
/// that parsing `s` yields, when it succeeds.
pub open spec fn pieces_spec(s: Seq<char>) -> Seq<Seq<char>> {
    keep_nonempty(trimmed_pieces(split_spec(s)))
}

/// Index of the first piece that holds a non-graphic character, or -1 when
/// every piece is graphic throughout.
pub open spec fn first_bad_piece(ps: Seq<Seq<char>>) -> int
    decreases ps.len(),
{
    if ps.len() == 0 {
        -1
    } else if !graphic_seq(ps[0]) {
        0
    } else {
        let r = first_bad_piece(ps.drop_first());
        if r < 0 {
            -1
        } else {
            r + 1
        }
    }
}

/// Index of the first non-graphic character of `p`, or -1 when there is none.
pub open spec fn first_bad_char(p: Seq<char>) -> int
    decreases p.len(),
{
    if p.len() == 0 {
        -1
    } else if !is_graphic_char(p[0]) {
        0
    } else {
        let r = first_bad_char(p.drop_first());
        if r < 0 {
            -1
        } else {
            r + 1
        }
    }
}

/// A component a well-formed tag may hold: non-empty, ASCII graphic
/// throughout, and free of the separator (a component always comes from
/// splitting on the separator, so it cannot contain one).
pub open spec fn valid_component(p: Seq<char>) -> bool {
    p.len() > 0 && graphic_seq(p) && no_sep(p)
}

/// Why a string failed to parse as a tag. Ordinary recoverable results:
/// constructing one has no side effect and never ends the process.
#[derive(Debug)]
pub enum TagError {
    /// No piece of the input survived trimming.
    EmptyTag,
    /// `component` is the first surviving piece with a character that is not
    /// ASCII graphic; `offending` is the first such character in it.
    InvalidComponent { component: String, offending: char },
}

/// A validated hierarchical tag: one or more non-empty components of ASCII
/// graphic characters. Built only by [`Tag::parse`]; immutable afterwards.
#[derive(Debug)]
pub struct Tag {
    path: Vec<String>,
}

impl View for Tag {
    type V = Seq<Seq<char>>;

    closed spec fn view(&self) -> Seq<Seq<char>> {
        strs_view(self.path@)
    }
}

impl Tag {
    /// The separator between tag components.
    pub const SEP: &'static str = ".";

    /// Invariant of every constructed tag.
    pub open spec fn wf(&self) -> bool {
        self@.len() >= 1 && (forall|i: int| 0 <= i < self@.len() ==> valid_component(
            #[trigger] self@[i],
        ))
    }
}

proof fn lemma_trim_start_skip(s: Seq<char>, a: int)
    requires
        0 <= a <= s.len(),
        forall|j: int| 0 <= j < a ==> is_space_char(#[trigger] s[j]),
        a == s.len() || !is_space_char(s[a]),
    ensures
        trim_start_spec(s) == s.skip(a),
    decreases a,
{
    if a == 0 {
        assert(s.skip(0) =~= s);
    } else {
        assert(is_space_char(s[0]));
        assert(forall|j: int|
            0 <= j < a - 1 ==> is_space_char(#[trigger] s.drop_first()[j]) == is_space_char(
                s[j + 1],
            ));
        lemma_trim_start_skip(s.drop_first(), a - 1);
        assert(s.drop_first().skip(a - 1) =~= s.skip(a));
    }
}

proof fn lemma_trim_end_take(s: Seq<char>, b: int)
    requires
        0 <= b <= s.len(),
        forall|j: int| b <= j < s.len() ==> is_space_char(#[trigger] s[j]),
        b == 0 || !is_space_char(s[b - 1]),
    ensures
        trim_end_spec(s) == s.take(b),
    decreases s.len(),
{
    if b == s.len() {
        assert(s.take(b) =~= s);
    } else {
        assert(is_space_char(s[s.len() - 1]));
        lemma_trim_end_take(s.drop_last(), b);
        assert(s.drop_last().take(b) =~= s.take(b));
    }
}

proof fn lemma_trim_graphic_id(p: Seq<char>)
    requires
        graphic_seq(p),
    ensures
        trim_spec(p) == p,
{
    if p.len() > 0 {
        assert(is_graphic_char(p[0]));
        assert(!is_space_char(p[0]));
        assert(is_graphic_char(p[p.len() - 1]));
        assert(!is_space_char(p.last()));
    }
}

proof fn lemma_split_append(a: Seq<char>, b: Seq<char>)
    requires
        no_sep(a),
    ensures
        split_spec(a + seq!['.'] + b) == seq![a] + split_spec(b),
    decreases a.len(),
{
    let s = a + seq!['.'] + b;
    if a.len() == 0 {
        assert(s[0] == '.');
        assert(s.drop_first() =~= b);
        assert(a =~= Seq::<char>::empty());
        assert(seq![Seq::<char>::empty()] + split_spec(b) =~= seq![a] + split_spec(b));
    } else {
        assert(s[0] == a[0]);
        assert(a[0] != '.');
        assert(forall|i: int| 0 <= i < a.len() - 1 ==> #[trigger] a.drop_first()[i] == a[i + 1]);
        assert(no_sep(a.drop_first()));
        assert(s.drop_first() =~= a.drop_first() + seq!['.'] + b);
        lemma_split_append(a.drop_first(), b);
        let rest = split_spec(s.drop_first());
        assert(rest == seq![a.drop_first()] + split_spec(b));
        assert(rest[0] == a.drop_first());
        assert(rest.drop_first() =~= split_spec(b));
        assert(seq![s[0]] + rest[0] =~= a);
        assert(split_spec(s) =~= seq![a] + split_spec(b));
    }
}

proof fn lemma_split_no_sep(a: Seq<char>)
    requires
        no_sep(a),
    ensures
        split_spec(a) == seq![a],
    decreases a.len(),
{
    if a.len() == 0 {
        assert(a =~= Seq::<char>::empty());
        assert(seq![Seq::<char>::empty()] =~= seq![a]);
    } else {
        assert(a[0] != '.');
        assert(forall|i: int| 0 <= i < a.len() - 1 ==> #[trigger] a.drop_first()[i] == a[i + 1]);
        assert(no_sep(a.drop_first()));
        lemma_split_no_sep(a.drop_first());
        let rest = split_spec(a.drop_first());
        assert(rest[0] == a.drop_first());
        assert(rest.drop_first() =~= Seq::<Seq<char>>::empty());
        assert(seq![a[0]] + a.drop_first() =~= a);
        assert(split_spec(a) =~= seq![a]);
    }
}

proof fn lemma_first_bad_piece_at(ps: Seq<Seq<char>>, k: int)
    requires
        0 <= k < ps.len(),
        forall|j: int| 0 <= j < k ==> graphic_seq(#[trigger] ps[j]),
        !graphic_seq(ps[k]),
    ensures
        first_bad_piece(ps) == k,
    decreases k,
{
    if k > 0 {
        assert(graphic_seq(ps[0]));
        lemma_first_bad_piece_at(ps.drop_first(), k - 1);
    }
}

proof fn lemma_first_bad_piece_none(ps: Seq<Seq<char>>)
    requires
        forall|j: int| 0 <= j < ps.len() ==> graphic_seq(#[trigger] ps[j]),
    ensures
        first_bad_piece(ps) == -1,
    decreases ps.len(),
{
    if ps.len() > 0 {
        assert(graphic_seq(ps[0]));
        lemma_first_bad_piece_none(ps.drop_first());
    }
}

proof fn lemma_first_bad_char_at(p: Seq<char>, k: int)
    requires
        0 <= k < p.len(),
        forall|j: int| 0 <= j < k ==> is_graphic_char(#[trigger] p[j]),
        !is_graphic_char(p[k]),
    ensures
        first_bad_char(p) == k,
    decreases k,
{
    if k > 0 {
        assert(is_graphic_char(p[0]));
        lemma_first_bad_char_at(p.drop_first(), k - 1);
    }
}

proof fn lemma_trim_start_no_sep(p: Seq<char>)
    requires
        no_sep(p),
    ensures
        no_sep(trim_start_spec(p)),
    decreases p.len(),
{
    if p.len() > 0 && is_space_char(p[0]) {
        assert(forall|i: int| 0 <= i < p.len() - 1 ==> #[trigger] p.drop_first()[i] == p[i + 1]);
        assert(no_sep(p.drop_first()));
        lemma_trim_start_no_sep(p.drop_first());
    }
}

proof fn lemma_trim_end_no_sep(p: Seq<char>)
    requires
        no_sep(p),
    ensures
        no_sep(trim_end_spec(p)),
    decreases p.len(),
{
    if p.len() > 0 && is_space_char(p.last()) {
        assert(forall|i: int| 0 <= i < p.len() - 1 ==> #[trigger] p.drop_last()[i] == p[i]);
        assert(no_sep(p.drop_last()));
        lemma_trim_end_no_sep(p.drop_last());
    }
}

proof fn lemma_trim_no_sep(p: Seq<char>)
    requires
        no_sep(p),
    ensures
        no_sep(trim_spec(p)),
{
    lemma_trim_start_no_sep(p);
    lemma_trim_end_no_sep(trim_start_spec(p));
}

proof fn lemma_keep_add(a: Seq<Seq<char>>, b: Seq<Seq<char>>)
    ensures
        keep_nonempty(a + b) == keep_nonempty(a) + keep_nonempty(b),
{
    broadcast use vstd::seq_lib::group_seq_lib_default;

}

proof fn lemma_keep_single(t: Seq<char>)
    ensures
        t.len() > 0 ==> keep_nonempty(seq![t]) == seq![t],
        t.len() == 0 ==> keep_nonempty(seq![t]) == Seq::<Seq<char>>::empty(),
{
    reveal_with_fuel(Seq::filter, 2);
    assert(seq![t].drop_last() =~= Seq::<Seq<char>>::empty());
    if t.len() > 0 {
        assert(keep_nonempty(seq![t]) =~= seq![t]);
    } else {
        assert(keep_nonempty(seq![t]) =~= Seq::<Seq<char>>::empty());
    }
}

/// `pieces_spec(s)`, decomposed around one raw piece `p` of the split.
proof fn lemma_pieces_decompose(s: Seq<char>, pre: Seq<Seq<char>>, p: Seq<char>, tail: Seq<Seq<char>>)
    requires
        split_spec(s) == pre + seq![p] + tail,
    ensures
        pieces_spec(s) == keep_nonempty(trimmed_pieces(pre)) + keep_nonempty(
            seq![trim_spec(p)],
        ) + keep_nonempty(trimmed_pieces(tail)),
{
    assert(trimmed_pieces(pre + seq![p] + tail) =~= trimmed_pieces(pre) + seq![trim_spec(p)]
        + trimmed_pieces(tail));
    lemma_keep_add(trimmed_pieces(pre) + seq![trim_spec(p)], trimmed_pieces(tail));
    lemma_keep_add(trimmed_pieces(pre), seq![trim_spec(p)]);
}

/// One raw piece extends the gathered components by its trimmed text, when
/// anything of it remains.
proof fn lemma_good_step(pre: Seq<Seq<char>>, p: Seq<char>, good: Seq<Seq<char>>)
    requires
        good == keep_nonempty(trimmed_pieces(pre)),
    ensures
        keep_nonempty(trimmed_pieces(pre + seq![p])) == if trim_spec(p).len() > 0 {
            good.push(trim_spec(p))
        } else {
            good
        },
{
    let t = trim_spec(p);
    assert(trimmed_pieces(pre + seq![p]) =~= trimmed_pieces(pre) + seq![t]);
    lemma_keep_add(trimmed_pieces(pre), seq![t]);
    lemma_keep_single(t);
    if t.len() > 0 {
        assert(good + seq![t] =~= good.push(t));
    } else {
        assert(good + Seq::<Seq<char>>::empty() =~= good);
    }
}

/// When parsing stops at a bad piece: the components gathered so far are
/// `good`, the offending piece is `trim_spec(p)`, and its position in the
/// surviving pieces of `s` is `good.len()`.
proof fn lemma_parse_err(
    s: Seq<char>,
    pre: Seq<Seq<char>>,
    p: Seq<char>,
    tail: Seq<Seq<char>>,
    good: Seq<Seq<char>>,
)
    requires
        split_spec(s) == pre + seq![p] + tail,
        good == keep_nonempty(trimmed_pieces(pre)),
        forall|j: int| 0 <= j < good.len() ==> valid_component(#[trigger] good[j]),
        trim_spec(p).len() > 0,
        !graphic_seq(trim_spec(p)),
    ensures
        first_bad_piece(pieces_spec(s)) == good.len(),
        good.len() < pieces_spec(s).len(),
        pieces_spec(s)[good.len() as int] == trim_spec(p),
{
    let t = trim_spec(p);
    lemma_pieces_decompose(s, pre, p, tail);
    lemma_keep_single(t);
    let ps = pieces_spec(s);
    assert(ps == good + seq![t] + keep_nonempty(trimmed_pieces(tail)));
    assert(ps[good.len() as int] == t);
    assert(forall|j: int| 0 <= j < good.len() ==> #[trigger] ps[j] == good[j]);
    assert(forall|j: int| 0 <= j < good.len() ==> graphic_seq(#[trigger] ps[j]));
    lemma_first_bad_piece_at(ps, good.len() as int);
}

/// Whether `c` is whitespace in the sense of [`is_space_char`].
pub fn is_space(c: char) -> (r: bool)
    ensures
        r == is_space_char(c),
{
    let n = c as u32;
    (0x09 <= n && n <= 0x0d) || n == 0x20 || n == 0x85 || n == 0xa0 || n == 0x1680 || (0x2000
        <= n && n <= 0x200a) || n == 0x2028 || n == 0x2029 || n == 0x202f || n == 0x205f || n
        == 0x3000
}

/// Whether `c` is ASCII graphic in the sense of [`is_graphic_char`].
pub fn is_graphic(c: char) -> (r: bool)
    ensures
        r == is_graphic_char(c),
{
    let n = c as u32;
    0x21 <= n && n <= 0x7e
}

/// Trims the raw piece `s[a0..b0]`, drops it when nothing remains, checks
/// the remainder for non-graphic characters, and otherwise pushes it onto
/// `stack` as a component.
fn process_piece(s: &str, a0: usize, b0: usize, stack: &mut Vec<String>) -> (r: Option<TagError>)
    requires
        a0 <= b0 <= s@.len(),
    ensures
        ({
            let t = trim_spec(s@.subrange(a0 as int, b0 as int));
            match r {
                Option::None => if t.len() == 0 {
                    final(stack)@ == old(stack)@
                } else {
                    graphic_seq(t) && strs_view(final(stack)@) == strs_view(old(stack)@).push(t)
                },
                Option::Some(TagError::InvalidComponent { component, offending }) => t.len() > 0
                    && !graphic_seq(t) && component@ == t && offending == t[first_bad_char(t)]
                    && final(stack)@ == old(stack)@,
                Option::Some(TagError::EmptyTag) => false,
            }
        }),
{
    let ghost p = s@.subrange(a0 as int, b0 as int);
    let mut a: usize = a0;
    while a < b0 && is_space(s.get_char(a))
        invariant
            a0 <= a <= b0 <= s@.len(),
            forall|j: int| a0 <= j < a ==> is_space_char(#[trigger] s@[j]),
        decreases b0 - a,
    {
        a = a + 1;
    }
    let mut b: usize = b0;
    while b > a && is_space(s.get_char(b - 1))
        invariant
            a <= b <= b0 <= s@.len(),
            forall|j: int| b <= j < b0 ==> is_space_char(#[trigger] s@[j]),
        decreases b,
    {
        b = b - 1;
    }
    proof {
        assert(forall|j: int|
            0 <= j < a - a0 ==> is_space_char(#[trigger] p[j]) == is_space_char(s@[a0 + j]));
        lemma_trim_start_skip(p, a - a0);
        let q = s@.subrange(a as int, b0 as int);
        assert(p.skip(a - a0) =~= q);
        assert(forall|j: int|
            b - a <= j < q.len() ==> is_space_char(#[trigger] q[j]) == is_space_char(s@[a + j]));
        lemma_trim_end_take(q, b - a);
        assert(q.take(b - a) =~= s@.subrange(a as int, b as int));
        assert(trim_spec(p) == s@.subrange(a as int, b as int));
    }
    let ghost t = trim_spec(p);
    if a == b {
        assert(t.len() == 0);
        return Option::None;
    }
    let mut c: usize = a;
    while c < b && is_graphic(s.get_char(c))
        invariant
            a <= c <= b <= s@.len(),
            forall|j: int| a <= j < c ==> is_graphic_char(#[trigger] s@[j]),
        decreases b - c,
    {
        c = c + 1;
    }
    proof {
        assert(forall|j: int| 0 <= j < t.len() ==> #[trigger] t[j] == s@[a + j]);
    }
    let comp = s.substring_char(a, b).to_owned();
    if c < b {
        proof {
            lemma_first_bad_char_at(t, c - a);
        }
        return Option::Some(TagError::InvalidComponent { component: comp, offending: s.get_char(c) });
    }
    assert(graphic_seq(t));
    stack.push(comp);
    proof {
        assert(strs_view(stack@) =~= strs_view(old(stack)@).push(t));
    }
    Option::None
}

impl Tag {
    /// Parse `s` as a tag.
    ///
    /// Splits on the separator, trims each piece, drops pieces that trim to
    /// nothing. Returns the surviving pieces as components when every one is
    /// ASCII graphic throughout; `InvalidComponent` names the first piece
    /// that is not, with its first offending character; `EmptyTag` reports
    /// that nothing survived.
    #[verifier::rlimit(60)]
    pub fn parse(s: &str) -> (r: Result<Tag, TagError>)
        ensures
            ({
                let ps = pieces_spec(s@);
                match r {
                    Result::Ok(t) => t.wf() && t@ == ps && ps.len() > 0 && first_bad_piece(ps)
                        == -1,
                    Result::Err(TagError::EmptyTag) => ps.len() == 0,
                    Result::Err(TagError::InvalidComponent { component, offending }) => {
                        let k = first_bad_piece(ps);
                        0 <= k < ps.len() && component@ == ps[k] && offending
                            == ps[k][first_bad_char(ps[k])]
                    },
                }
            }),
    {
        let n = s.unicode_len();
        let mut stack: Vec<String> = Vec::new();
        let ghost mut pre: Seq<Seq<char>> = Seq::empty();
        let ghost mut good: Seq<Seq<char>> = Seq::empty();
        let mut start: usize = 0;
        let mut i: usize = 0;
        proof {
            assert(s@.skip(0) =~= s@);
            assert(pre + split_spec(s@.skip(0)) =~= split_spec(s@));
            assert(trimmed_pieces(pre) =~= Seq::<Seq<char>>::empty());
            assert(good =~= keep_nonempty(trimmed_pieces(pre)));
            assert(good =~= strs_view(stack@));
        }
        while i < n
            invariant
                n == s@.len(),
                start <= i <= n,
                forall|j: int| start <= j < i ==> #[trigger] s@[j] != '.',
                split_spec(s@) == pre + split_spec(s@.skip(start as int)),
                good == keep_nonempty(trimmed_pieces(pre)),
                good == strs_view(stack@),
                forall|j: int| 0 <= j < good.len() ==> valid_component(#[trigger] good[j]),
            decreases n - i,
        {
            let ch = s.get_char(i);
            if ch == '.' {
                let ghost p = s@.subrange(start as int, i as int);
                let ghost tail = split_spec(s@.skip(i + 1 as int));
                proof {
                    assert(no_sep(p));
                    assert(s@.skip(start as int) =~= p + seq!['.'] + s@.skip(i + 1 as int));
                    lemma_split_append(p, s@.skip(i + 1 as int));
                    assert(pre + (seq![p] + tail) =~= pre + seq![p] + tail);
                }
                let ghost stack0 = stack@;
                let res = process_piece(s, start, i, &mut stack);
                if let Option::Some(e) = res {
                    proof {
                        lemma_parse_err(s@, pre, p, tail, good);
                    }
                    return Result::Err(e);
                }
                proof {
                    lemma_good_step(pre, p, good);
                    let t = trim_spec(p);
                    pre = pre + seq![p];
                    if t.len() > 0 {
                        lemma_trim_no_sep(p);
                        assert(strs_view(stack0).push(t) =~= strs_view(stack@));
                        good = good.push(t);
                    }
                    assert(split_spec(s@) =~= pre + split_spec(s@.skip(i + 1 as int)));
                }
                start = i + 1;
            }
            i = i + 1;
        }
        let ghost p = s@.subrange(start as int, n as int);
        proof {
            assert(s@.skip(start as int) =~= p);
            assert(no_sep(p));
            lemma_split_no_sep(p);
            assert(pre + seq![p] =~= pre + seq![p] + Seq::<Seq<char>>::empty());
        }
        let ghost stack0 = stack@;
        let res = process_piece(s, start, n, &mut stack);
        if let Option::Some(e) = res {
            proof {
                lemma_parse_err(s@, pre, p, Seq::empty(), good);
            }
            return Result::Err(e);
        }
        proof {
            lemma_good_step(pre, p, good);
            let t = trim_spec(p);
            pre = pre + seq![p];
            if t.len() > 0 {
                lemma_trim_no_sep(p);
                assert(strs_view(stack0).push(t) =~= strs_view(stack@));
                good = good.push(t);
            }
            assert(split_spec(s@) == pre);
            assert(pieces_spec(s@) == good);
        }
        if stack.len() == 0 {
            proof {
                assert(good =~= Seq::<Seq<char>>::empty());
            }
            return Result::Err(TagError::EmptyTag);
        }
        proof {
            assert(forall|j: int|
                0 <= j < good.len() ==> graphic_seq(#[trigger] good[j]));
            lemma_first_bad_piece_none(good);
        }
        let t = Tag { path: stack };
        proof {
            assert(good.len() == stack@.len());
        }
        Result::Ok(t)
    }
}

impl Tag {
    /// The components, in order.
    pub fn components(&self) -> (r: &Vec<String>)
        ensures
            strs_view(r@) == self@,
    {
        &self.path
    }

    /// The canonical text of this tag: its components joined by the
    /// separator. This is the sole supported textual form; it need not equal
    /// the text the tag was parsed from.
    pub fn render(&self) -> (r: String)
        ensures
            r@ == render_spec(self@),
    {
        let mut out = String::new();
        if self.path.len() == 0 {
            return out;
        }
        let mut i: usize = 0;
        while i < self.path.len()
            invariant
                0 <= i <= self.path@.len(),
                i == 0 ==> out@ == Seq::<char>::empty(),
                0 < i < self.path@.len() ==> render_spec(self@) == out@ + seq!['.']
                    + render_spec(self@.skip(i as int)),
                i == self.path@.len() && i > 0 ==> render_spec(self@) == out@,
            decreases self.path@.len() - i,
        {
            if i > 0 {
                out.append(".");
                proof {
                    reveal_strlit(".");
                    assert("."@ =~= seq!['.']);
                }
            }
            out.append(self.path[i].as_str());
            proof {
                let v = self@;
                assert(v[i as int] == self.path@[i as int]@);
                if i > 0 {
                    assert(v.skip(i as int)[0] == v[i as int]);
                    if i + 1 < v.len() {
                        assert(v.skip(i as int).drop_first() =~= v.skip(i + 1 as int));
                    } else {
                        assert(v.skip(i as int).len() == 1);
                    }
                } else {
                    if v.len() > 1 {
                        assert(v.drop_first() =~= v.skip(1));
                    }
                }
            }
            i = i + 1;
        }
        out
    }
}

impl std::str::FromStr for Tag {
    type Err = TagError;

    /// Parsing through the standard trait defers to [`Tag::parse`].
    fn from_str(s: &str) -> Result<Tag, TagError> {
        Tag::parse(s)
    }
}

proof fn lemma_pieces_of_render(ps: Seq<Seq<char>>)
    requires
        ps.len() >= 1,
        forall|j: int| 0 <= j < ps.len() ==> valid_component(#[trigger] ps[j]),
    ensures
        pieces_spec(render_spec(ps)) == ps,
    decreases ps.len(),
{
    if ps.len() == 1 {
        assert(render_spec(ps) == ps[0]);
        lemma_split_no_sep(ps[0]);
        lemma_trim_graphic_id(ps[0]);
        assert(trimmed_pieces(seq![ps[0]]) =~= seq![ps[0]]);
        lemma_keep_single(ps[0]);
        assert(seq![ps[0]] =~= ps);
    } else {
        let rest = ps.drop_first();
        assert(forall|j: int| 0 <= j < rest.len() ==> #[trigger] rest[j] == ps[j + 1]);
        lemma_pieces_of_render(rest);
        lemma_split_append(ps[0], render_spec(rest));
        assert(render_spec(ps) == ps[0] + seq!['.'] + render_spec(rest));
        assert(trimmed_pieces(seq![ps[0]] + split_spec(render_spec(rest))) =~= trimmed_pieces(
            seq![ps[0]],
        ) + trimmed_pieces(split_spec(render_spec(rest))));
        lemma_keep_add(trimmed_pieces(seq![ps[0]]), trimmed_pieces(split_spec(render_spec(rest))));
        lemma_trim_graphic_id(ps[0]);
        assert(trimmed_pieces(seq![ps[0]]) =~= seq![ps[0]]);
        lemma_keep_single(ps[0]);
        assert(pieces_spec(render_spec(ps)) == seq![ps[0]] + keep_nonempty(
            trimmed_pieces(split_spec(render_spec(rest))),
        ));
        assert(seq![ps[0]] + rest =~= ps);
    }
}

/// Round trip: the canonical text of a well-formed tag parses back to
/// exactly its components. With the contract of [`Tag::parse`], for a tag
/// `t` that a successful parse produced, `Tag::parse(t.render())` returns
/// `Ok` with a tag whose components equal `t`'s.
pub proof fn lemma_parse_render_roundtrip(t: &Tag)
    requires
        t.wf(),
    ensures
        pieces_spec(render_spec(t@)) == t@,
        first_bad_piece(pieces_spec(render_spec(t@))) == -1,
        pieces_spec(render_spec(t@)).len() > 0,
{
    lemma_pieces_of_render(t@);
    assert(forall|j: int| 0 <= j < t@.len() ==> graphic_seq(#[trigger] t@[j]));
    lemma_first_bad_piece_none(t@);
}

} // verus!
