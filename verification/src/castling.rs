//! Castling rights, as the four flags of a position record.

use vstd::prelude::*;
use crate::error::ErrorKind;

verus! {

/// Which castling moves a position record still allows.
#[derive(Debug, Clone, Copy, PartialEq, Eq, Structural)]
pub struct CastlingRights {
    pub white_king_side: bool,
    pub white_queen_side: bool,
    pub black_king_side: bool,
    pub black_queen_side: bool,
}

/// Whether `c` is one of the four castling flags.
pub open spec fn is_castling_flag(c: char) -> bool {
    c == 'K' || c == 'Q' || c == 'k' || c == 'q'
}

/// The rights in which a flag is set where its letter occurs in `s`.
pub open spec fn rights_flagged(s: Seq<char>) -> CastlingRights {
    CastlingRights {
        white_king_side: s.contains('K'),
        white_queen_side: s.contains('Q'),
        black_king_side: s.contains('k'),
        black_queen_side: s.contains('q'),
    }
}

/// What reading castling rights from `s` gives. A lone `-` and the empty
/// text grant nothing; otherwise every character must be a flag, and a flag
/// is granted where its letter occurs, in whatever order and however often.
pub open spec fn rights_of(s: Seq<char>) -> Result<CastlingRights, ErrorKind> {
    if s == seq!['-'] {
        Ok(CastlingRights::none())
    } else if forall|i: int| 0 <= i < s.len() ==> is_castling_flag(#[trigger] s[i]) {
        Ok(rights_flagged(s))
    } else {
        Err(ErrorKind::MalformedCharacter)
    }
}

impl CastlingRights {
    /// No right at all.
    pub open spec fn none() -> CastlingRights {
        CastlingRights {
            white_king_side: false,
            white_queen_side: false,
            black_king_side: false,
            black_queen_side: false,
        }
    }

    /// Reads castling rights from the letters `K`, `Q`, `k` and `q`, or from
    /// a lone `-`.
    pub fn from_str(s: &str) -> (r: Result<CastlingRights, ErrorKind>)
        ensures
            r == rights_of(s@),
    {
        let mut rights = CastlingRights {
            white_king_side: false,
            white_queen_side: false,
            black_king_side: false,
            black_queen_side: false,
        };
        // Whether the text so far is a lone `-`.
        let mut lone_dash = false;
        let mut first = true;
        proof {
            lemma_rights_of_nothing();
        }
        for c in it: s.chars()
            invariant
                it.seq() == s@,
                first == (it.index() == 0),
                lone_dash == (it.index() == 1 && s@[0] == '-'),
                !lone_dash ==> forall|i: int| 0 <= i < it.index() ==> is_castling_flag(#[trigger] s@[i]),
                !lone_dash ==> rights == rights_flagged(s@.take(it.index() as int)),
                lone_dash ==> rights == CastlingRights::none(),
        {
            let ghost at = it.index() as int;
            if lone_dash || !(c == 'K' || c == 'Q' || c == 'k' || c == 'q' || (c == '-' && first)) {
                proof {
                    // Past a `-`, or at a character that is no flag: the text
                    // is no lone `-`, and one of its characters is no flag.
                    assert(s@.len() >= 2 || s@[0] != '-');
                    assert(!is_castling_flag(s@[if lone_dash { 0 } else { at }]));
                }
                return Err(ErrorKind::MalformedCharacter);
            }
            proof {
                lemma_contains_push(s@.take(at), c);
                assert(s@.take(at + 1) == s@.take(at).push(c));
            }
            if c == 'K' {
                rights.white_king_side = true;
            } else if c == 'Q' {
                rights.white_queen_side = true;
            } else if c == 'k' {
                rights.black_king_side = true;
            } else if c == 'q' {
                rights.black_queen_side = true;
            } else {
                lone_dash = true;
            }
            first = false;
        }
        proof {
            assert(s@.take(s@.len() as int) == s@);
            if lone_dash {
                assert(s@ =~= seq!['-']);
            } else if s@.len() > 0 {
                assert(is_castling_flag(s@[0]));
            }
        }
        Ok(rights)
    }
}

/// The empty text grants nothing.
proof fn lemma_rights_of_nothing()
    ensures
        rights_flagged(Seq::<char>::empty().take(0)) == CastlingRights::none(),
{
    assert(Seq::<char>::empty().take(0) == Seq::<char>::empty());
}

/// A character occurs in a text grown by one character where it occurs in
/// the text or is that character.
proof fn lemma_contains_push(s: Seq<char>, c: char)
    ensures
        forall|f: char| s.push(c).contains(f) == (s.contains(f) || c == f),
{
    assert forall|f: char| s.push(c).contains(f) == (s.contains(f) || c == f) by {
        let grown = s.push(c);
        if s.contains(f) {
            let i = choose|i: int| 0 <= i < s.len() && s[i] == f;
            assert(grown[i] == f);
        }
        if c == f {
            assert(grown[s.len() as int] == f);
        }
        if grown.contains(f) {
            let i = choose|i: int| 0 <= i < grown.len() && grown[i] == f;
            if i < s.len() {
                assert(s[i] == f);
            }
        }
    }
}

/// The order of the characters does not matter: two texts that hold the
/// same characters, each as often in the one as in the other, are read
/// alike.
pub proof fn lemma_rights_ignore_order(s: Seq<char>, t: Seq<char>)
    requires
        s.to_multiset() == t.to_multiset(),
    ensures
        rights_of(s) == rights_of(t),
{
    s.to_multiset_ensures();
    t.to_multiset_ensures();
    assert(s.len() == t.len());
    assert forall|c: char| s.contains(c) == t.contains(c) by {
        assert(s.contains(c) <==> s.to_multiset().count(c) > 0);
        assert(t.contains(c) <==> t.to_multiset().count(c) > 0);
    }
    if forall|i: int| 0 <= i < s.len() ==> is_castling_flag(#[trigger] s[i]) {
        lemma_flags_only_by_contents(s, t);
    }
    if forall|i: int| 0 <= i < t.len() ==> is_castling_flag(#[trigger] t[i]) {
        lemma_flags_only_by_contents(t, s);
    }
    if s == seq!['-'] {
        assert(s[0] == '-');
        assert(s.contains('-'));
        let i = choose|i: int| 0 <= i < t.len() && t[i] == '-';
        assert(t =~= seq!['-']);
    }
    if t == seq!['-'] {
        assert(t[0] == '-');
        assert(t.contains('-'));
        let i = choose|i: int| 0 <= i < s.len() && s[i] == '-';
        assert(s =~= seq!['-']);
    }
}

/// Where every character of `s` is a flag, so is every character of a text
/// that holds no other characters than `s`.
proof fn lemma_flags_only_by_contents(s: Seq<char>, t: Seq<char>)
    requires
        forall|c: char| s.contains(c) == t.contains(c),
        forall|i: int| 0 <= i < s.len() ==> is_castling_flag(#[trigger] s[i]),
    ensures
        forall|i: int| 0 <= i < t.len() ==> is_castling_flag(#[trigger] t[i]),
{
    assert forall|i: int| 0 <= i < t.len() implies is_castling_flag(#[trigger] t[i]) by {
        assert(t.contains(t[i]));
        assert(s.contains(t[i]));
        let j = choose|j: int| 0 <= j < s.len() && s[j] == t[i];
        assert(is_castling_flag(s[j]));
    }
}

} // verus!
