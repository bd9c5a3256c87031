//! The line model: a text's line sequence, and the canonical on-disk form.
//!
//! A text is split on line-feed boundaries into lines; a final empty
//! segment, arising from a trailing line-feed, is discarded exactly once,
//! so a line sequence never gains a phantom trailing empty line. The
//! canonical on-disk form joins the lines with line-feed separators and
//! exactly one trailing line-feed; the empty line sequence is the empty
//! text.

use vstd::prelude::*;

verus! {

broadcast use vstd::string::group_string_axioms;

/// Splits `s` on line-feed characters, `cur` being the part of the current
/// line read so far. A final segment is kept only when it is non-empty.
pub open spec fn split_rec(s: Seq<char>, cur: Seq<char>) -> Seq<Seq<char>>
    decreases s.len(),
{
    if s.len() == 0 {
        if cur.len() == 0 {
            Seq::empty()
        } else {
            seq![cur]
        }
    } else if s[0] == '\n' {
        seq![cur] + split_rec(s.drop_first(), Seq::empty())
    } else {
        split_rec(s.drop_first(), cur.push(s[0]))
    }
}

/// The line sequence of a text.
pub open spec fn split_lines(s: Seq<char>) -> Seq<Seq<char>> {
    split_rec(s, Seq::empty())
}

/// The canonical on-disk form of a line sequence.
pub open spec fn join_lines(lines: Seq<Seq<char>>) -> Seq<char>
    decreases lines.len(),
{
    if lines.len() == 0 {
        Seq::empty()
    } else {
        lines[0] + seq!['\n'] + join_lines(lines.drop_first())
    }
}

/// Joining is compatible with appending one line at the end.
proof fn lemma_join_push(lines: Seq<Seq<char>>, x: Seq<char>)
    ensures
        join_lines(lines.push(x)) == join_lines(lines) + x + seq!['\n'],
    decreases lines.len(),
{
    if lines.len() == 0 {
        assert(lines.push(x).drop_first() =~= Seq::<Seq<char>>::empty());
        assert(lines.push(x)[0] == x);
        assert(join_lines(lines.push(x)) == x + seq!['\n'] + join_lines(Seq::empty()));
        assert(x + seq!['\n'] + Seq::<char>::empty() =~= x + seq!['\n']);
        assert(join_lines(lines) + x + seq!['\n'] =~= x + seq!['\n']);
    } else {
        lemma_join_push(lines.drop_first(), x);
        assert(lines.push(x).drop_first() =~= lines.drop_first().push(x));
        assert(join_lines(lines.push(x)) =~= join_lines(lines) + x + seq!['\n']);
    }
}

/// Splits a text into its line sequence.
pub fn split_content(s: &str) -> (r: Vec<String>)
    ensures
        r.deep_view() == split_lines(s@),
{
    let n = s.unicode_len();
    let mut r: Vec<String> = Vec::new();
    let mut start: usize = 0;
    let mut i: usize = 0;
    proof {
        assert(r.deep_view() =~= Seq::<Seq<char>>::empty());
        assert(s@.subrange(0, n as int) =~= s@);
        assert(s@.subrange(0, 0) =~= Seq::<char>::empty());
        assert(r.deep_view() + split_rec(s@, Seq::empty()) =~= split_lines(s@));
    }
    while i < n
        invariant
            start <= i <= n,
            n == s@.len(),
            split_lines(s@) == r.deep_view() + split_rec(
                s@.subrange(i as int, n as int),
                s@.subrange(start as int, i as int),
            ),
        decreases n - i,
    {
        let ghost rest = s@.subrange(i as int, n as int);
        let ghost cur = s@.subrange(start as int, i as int);
        let c = s.get_char(i);
        if c == '\n' {
            let line = s.substring_char(start, i).to_owned();
            proof {
                assert(rest[0] == '\n');
                assert(rest.drop_first() =~= s@.subrange(i + 1, n as int));
                assert(split_rec(rest, cur) == seq![cur] + split_rec(
                    s@.subrange(i + 1, n as int),
                    Seq::empty(),
                ));
            }
            let ghost old_r = r.deep_view();
            r.push(line);
            proof {
                assert(r.deep_view() =~= old_r + seq![cur]);
                assert(s@.subrange(i + 1, i + 1) =~= Seq::<char>::empty());
                assert(r.deep_view() + split_rec(
                    s@.subrange(i + 1, n as int),
                    s@.subrange(i + 1, i + 1),
                ) =~= (old_r + seq![cur]) + split_rec(s@.subrange(i + 1, n as int), Seq::empty()));
                assert((old_r + seq![cur]) + split_rec(s@.subrange(i + 1, n as int), Seq::empty())
                    =~= old_r + (seq![cur] + split_rec(s@.subrange(i + 1, n as int), Seq::empty())));
            }
            start = i + 1;
        } else {
            proof {
                assert(rest[0] != '\n');
                assert(rest.drop_first() =~= s@.subrange(i + 1, n as int));
                assert(cur.push(s@[i as int]) =~= s@.subrange(start as int, i + 1));
                assert(split_rec(rest, cur) == split_rec(
                    s@.subrange(i + 1, n as int),
                    s@.subrange(start as int, i + 1),
                ));
            }
        }
        i += 1;
    }
    proof {
        assert(s@.subrange(n as int, n as int) =~= Seq::<char>::empty());
    }
    if start < n {
        let line = s.substring_char(start, n).to_owned();
        let ghost old_r = r.deep_view();
        let ghost cur = s@.subrange(start as int, n as int);
        r.push(line);
        proof {
            assert(cur.len() > 0);
            assert(split_rec(Seq::empty(), cur) =~= seq![cur]);
            assert(r.deep_view() =~= old_r + seq![cur]);
        }
    } else {
        proof {
            assert(s@.subrange(start as int, n as int) =~= Seq::<char>::empty());
            assert(split_rec(Seq::empty(), Seq::<char>::empty()) =~= Seq::<Seq<char>>::empty());
            assert(split_lines(s@) =~= r.deep_view());
        }
    }
    r
}

/// Writes a line sequence in its canonical on-disk form.
pub fn join_content(lines: &Vec<String>) -> (r: String)
    ensures
        r@ == join_lines(lines.deep_view()),
{
    let mut r = String::new();
    let mut i: usize = 0;
    proof {
        assert(lines.deep_view().subrange(0, 0) =~= Seq::<Seq<char>>::empty());
    }
    while i < lines.len()
        invariant
            i <= lines.len(),
            lines.deep_view().len() == lines.len(),
            r@ == join_lines(lines.deep_view().subrange(0, i as int)),
        decreases lines.len() - i,
    {
        let ghost pref = lines.deep_view().subrange(0, i as int);
        let ghost x = lines.deep_view()[i as int];
        r.append(lines[i].as_str());
        r.append("\n");
        proof {
            reveal_strlit("\n");
            assert("\n"@ =~= seq!['\n']);
            lemma_join_push(pref, x);
            assert(pref.push(x) =~= lines.deep_view().subrange(0, i + 1));
            assert(r@ =~= join_lines(pref) + x + seq!['\n']);
        }
        i += 1;
    }
    proof {
        assert(lines.deep_view().subrange(0, lines.deep_view().len() as int) =~= lines.deep_view());
    }
    r
}

} // verus!
