//! What holds of topic filters: which names they match.
use vstd::prelude::*;

use crate::route;
use crate::routes;
use crate::text;
use crate::topic;

verus! {

/// The pieces with the separator between them.
pub open spec fn joined(pieces: Seq<Seq<char>>, sep: char) -> Seq<char>
    decreases pieces.len(),
{
    if pieces.len() == 0 {
        Seq::empty()
    } else if pieces.len() == 1 {
        pieces[0]
    } else {
        joined(pieces.drop_last(), sep).push(sep) + pieces.last()
    }
}

/// The last piece grows.
proof fn lemma_joined_grows(pieces: Seq<Seq<char>>, sep: char, c: char)
    requires
        pieces.len() >= 1,
    ensures
        joined(pieces.drop_last().push(pieces.last().push(c)), sep) == joined(pieces, sep).push(c),
{
    let grown = pieces.drop_last().push(pieces.last().push(c));
    assert(grown.drop_last() =~= pieces.drop_last());
    assert(joined(grown, sep) =~= joined(pieces, sep).push(c));
}

/// Law: the levels of a topic, with the separator between them, are the topic, and no level holds
/// the separator.
pub proof fn law_pieces_make_up_the_text(s: Seq<char>, sep: char)
    ensures
        text::pieces(s, sep).len() >= 1,
        joined(text::pieces(s, sep), sep) == s,
        forall|i: int|
            0 <= i < text::pieces(s, sep).len() ==> !(#[trigger] text::pieces(s, sep)[i]).contains(
                sep,
            ),
    decreases s.len(),
{
    text::lemma_pieces_nonempty(s, sep);
    assert forall|i: int| 0 <= i < text::pieces(s, sep).len() implies !(#[trigger] text::pieces(
        s,
        sep,
    )[i]).contains(sep) by {
        text::lemma_pieces_without_sep(s, sep, i);
    }
    if s.len() == 0 {
        assert(joined(text::pieces(s, sep), sep) =~= s);
    } else {
        let front = text::pieces(s.drop_last(), sep);
        law_pieces_make_up_the_text(s.drop_last(), sep);
        if s.last() == sep {
            let all = front.push(Seq::empty());
            assert(all.drop_last() =~= front);
            assert(joined(all, sep) =~= s);
        } else {
            lemma_joined_grows(front, sep, s.last());
            assert(s =~= s.drop_last().push(s.last()));
        }
    }
}

/// A level of a filter takes a level of a name.
pub open spec fn takes(level: Seq<char>, name: Seq<char>) -> bool {
    level == "+"@ || level == name
}

/// Law: a filter matches a name iff it does so level by level. `+` takes any one level, `#` as the
/// last level takes one or more, and any other level takes its own name alone.
pub proof fn law_filter_matches_level_by_level(filter: Seq<Seq<char>>, name: Seq<Seq<char>>)
    requires
        forall|i: int| 0 <= i < filter.len() - 1 ==> #[trigger] filter[i] != "#"@,
    ensures
        route::path_matches(filter.map_values(|t: Seq<char>| route::key_of(t)), name) <==> (
        if filter.len() > 0 && filter.last() == "#"@ {
            &&& name.len() >= filter.len()
            &&& forall|i: int| 0 <= i < filter.len() - 1 ==> takes(#[trigger] filter[i], name[i])
        } else {
            &&& name.len() == filter.len()
            &&& forall|i: int| 0 <= i < filter.len() ==> takes(#[trigger] filter[i], name[i])
        }),
    decreases filter.len(),
{
    reveal_strlit("#");
    reveal_strlit("+");
    assert("#"@[0] != "+"@[0]);
    let path = filter.map_values(|t: Seq<char>| route::key_of(t));
    if filter.len() > 0 && name.len() > 0 {
        let below = filter.drop_first();
        let rest = name.drop_first();
        assert(path.drop_first() =~= below.map_values(|t: Seq<char>| route::key_of(t)));
        assert forall|i: int| 0 <= i < below.len() - 1 implies #[trigger] below[i] != "#"@ by {
            assert(below[i] == filter[i + 1]);
        }
        law_filter_matches_level_by_level(below, rest);
        assert(path[0] == route::key_of(filter[0]));
        let n = if filter.last() == "#"@ {
            filter.len() - 1
        } else {
            filter.len() as int
        };
        if filter.len() > 1 {
            assert(below.last() == filter.last());
            assert(filter[0] != "#"@);
            assert(name.len() >= n ==> ((forall|i: int|
                0 <= i < n ==> takes(#[trigger] filter[i], name[i])) <==> takes(
                filter[0],
                name[0],
            ) && (forall|i: int| 0 <= i < n - 1 ==> takes(#[trigger] below[i], rest[i])))) by {
                if name.len() >= n && forall|i: int| 0 <= i < n ==> takes(#[trigger] filter[i], name[i]) {
                    assert(takes(filter[0], name[0]));
                    assert forall|i: int| 0 <= i < n - 1 implies takes(
                        #[trigger] below[i],
                        rest[i],
                    ) by {
                        assert(takes(filter[i + 1], name[i + 1]));
                    }
                }
                if name.len() >= n && takes(filter[0], name[0]) && forall|i: int|
                    0 <= i < n - 1 ==> takes(#[trigger] below[i], rest[i]) {
                    assert forall|i: int| 0 <= i < n implies takes(#[trigger] filter[i], name[i]) by {
                        if i > 0 {
                            assert(takes(below[i - 1], rest[i - 1]));
                        }
                    }
                }
            }
        } else {
            assert(below =~= Seq::empty());
            assert(filter[0] == filter.last());
            if filter[0] != "#"@ {
                assert((forall|i: int| 0 <= i < 1 ==> takes(#[trigger] filter[i], name[i]))
                    <==> takes(filter[0], name[0])) by {
                    if takes(filter[0], name[0]) {
                        assert forall|i: int| 0 <= i < 1 implies takes(
                            #[trigger] filter[i],
                            name[i],
                        ) by {}
                    } else {
                        assert(!takes(filter[0], name[0]));
                    }
                }
            }
        }
    }
}

/// A character of a piece is one of the text.
proof fn lemma_piece_within(s: Seq<char>, sep: char, i: int, c: char)
    requires
        0 <= i < text::pieces(s, sep).len(),
        text::pieces(s, sep)[i].contains(c),
    ensures
        s.contains(c),
    decreases s.len(),
{
    if s.len() > 0 {
        let front = text::pieces(s.drop_last(), sep);
        text::lemma_pieces_nonempty(s.drop_last(), sep);
        let piece = text::pieces(s, sep)[i];
        let j = piece.index_of(c);
        if i < front.len() - 1 {
            assert(piece == front[i]);
            lemma_piece_within(s.drop_last(), sep, i, c);
        } else if s.last() == sep {
            assert(i == front.len() - 1);
            assert(piece == front[i]);
            lemma_piece_within(s.drop_last(), sep, i, c);
        } else {
            assert(piece == front.last().push(s.last()));
            if j < front.last().len() {
                assert(front.last()[j] == c);
                lemma_piece_within(s.drop_last(), sep, front.len() - 1, c);
            } else {
                assert(s[s.len() - 1] == c);
            }
        }
        if s.drop_last().contains(c) {
            assert(s[s.drop_last().index_of(c)] == c);
        }
    }
}

/// Law: whether a subscription is kept by name or by filter makes no difference. What a client asked
/// for matches a name iff its levels do.
pub proof fn law_subscription_matches_by_its_levels(filter: Seq<char>, name: Seq<char>)
    ensures
        routes::topic_matches(topic::topic_of(filter), name) <==> route::path_matches(
            text::pieces(filter, '/').map_values(|t: Seq<char>| route::key_of(t)),
            text::pieces(name, '/'),
        ),
        topic::topic_of(filter).text() == filter,
{
    let levels = text::pieces(filter, '/');
    let tokens = text::pieces(name, '/');
    let path = levels.map_values(|t: Seq<char>| route::key_of(t));
    assert(path =~= route::filter_path(filter));
    if topic::topic_of(filter) is Name {
        reveal_strlit("#");
        reveal_strlit("+");
        assert("#"@[0] == '#');
        assert("+"@[0] == '+');
        assert forall|i: int| 0 <= i < levels.len() implies #[trigger] levels[i] != "#"@
            && levels[i] != "+"@ by {
            if levels[i] == "#"@ {
                assert(levels[i].contains('#'));
                lemma_piece_within(filter, '/', i, '#');
            }
            if levels[i] == "+"@ {
                assert(levels[i].contains('+'));
                lemma_piece_within(filter, '/', i, '+');
            }
        }
        law_filter_matches_level_by_level(levels, tokens);
        text::lemma_pieces_nonempty(filter, '/');
        assert(levels.last() != "#"@);
        if filter == name {
            assert forall|i: int| 0 <= i < levels.len() implies takes(
                #[trigger] levels[i],
                tokens[i],
            ) by {}
        }
        if route::path_matches(path, tokens) {
            assert(levels =~= tokens);
            text::lemma_pieces_injective(filter, name, '/');
        }
    }
}

} // verus!
