//! Subsystem tags for trace logging.
//!
//! A `DUNGEON_MANAGER_LOG` value is a comma-separated list of tags, or `all`.
//! Tags are trimmed and compared without regard to ASCII case, and empty
//! entries are dropped, so ` Combat , IMPS ,, ` enables `combat` and `imps`.

use vstd::prelude::*;
use vstd::hash_set::StringHashSet;
use crate::text::{
    ascii_lower, ascii_lower_seq, chars_of, lemma_lower_keeps_white_space, lemma_trim_end_lower,
    join_with, lemma_split_join, lemma_split_pieces_lack_sep, lemma_trim_idempotent,
    lemma_trim_keeps_absent, lemma_trim_start_lower, lower_range, split_on, split_scan, to_ascii_lower, trim, trim_bounds, trim_start,
};

verus! {

/// The tag a single comma-separated entry stands for.
pub open spec fn normalize_tag(piece: Seq<char>) -> Seq<char> {
    ascii_lower_seq(trim(piece))
}

/// The non-empty tags named by a list of entries.
pub open spec fn tags_of_pieces(pieces: Seq<Seq<char>>) -> Set<Seq<char>> {
    Set::new(
        |t: Seq<char>|
            t.len() > 0 && exists|i: int| 0 <= i < pieces.len() && normalize_tag(pieces[i]) == t,
    )
}

/// The tags a `DUNGEON_MANAGER_LOG` value enables.
pub open spec fn parsed_tags(value: Seq<char>) -> Set<Seq<char>> {
    tags_of_pieces(split_on(value, ','))
}

/// Whether a parsed tag set traces `tag`.
pub open spec fn allows(tags: Set<Seq<char>>, tag: Seq<char>) -> bool {
    tags.contains("all"@) || tags.contains(ascii_lower_seq(tag))
}

proof fn lemma_tags_of_push(pieces: Seq<Seq<char>>, p: Seq<char>)
    ensures
        tags_of_pieces(pieces.push(p)) == (if normalize_tag(p).len() > 0 {
            tags_of_pieces(pieces).insert(normalize_tag(p))
        } else {
            tags_of_pieces(pieces)
        }),
{
    let lhs = tags_of_pieces(pieces.push(p));
    let rhs = if normalize_tag(p).len() > 0 {
        tags_of_pieces(pieces).insert(normalize_tag(p))
    } else {
        tags_of_pieces(pieces)
    };
    assert forall|t: Seq<char>| lhs.contains(t) implies rhs.contains(t) by {
        let i = choose|i: int|
            0 <= i < pieces.push(p).len() && normalize_tag(pieces.push(p)[i]) == t;
        if i < pieces.len() {
            assert(normalize_tag(pieces[i]) == t);
        }
    }
    assert forall|t: Seq<char>| rhs.contains(t) implies lhs.contains(t) by {
        if t == normalize_tag(p) && t.len() > 0 {
            assert(normalize_tag(pieces.push(p)[pieces.len() as int]) == t);
        } else {
            let i = choose|i: int| 0 <= i < pieces.len() && normalize_tag(pieces[i]) == t;
            assert(normalize_tag(pieces.push(p)[i]) == t);
        }
    }
    assert(lhs =~= rhs);
}

/// Tag lookups ignore ASCII case: a tag is traced exactly when its
/// lowercase form is, whatever tags are enabled.
pub proof fn tag_case_is_ignored(tags: Set<Seq<char>>, tag: Seq<char>)
    ensures
        allows(tags, tag) == allows(tags, ascii_lower_seq(tag)),
{
    assert forall|k: int| 0 <= k < tag.len() implies #[trigger] ascii_lower(ascii_lower(tag[k]))
        == ascii_lower(tag[k]) by {
        lemma_lower_keeps_white_space(tag[k]);
    }
    assert(ascii_lower_seq(ascii_lower_seq(tag)) =~= ascii_lower_seq(tag));
}

/// Every tag a value enables is non-empty, holds no comma, and is already
/// in the form a tag is compared in: trimmed and ASCII-lowercase, so
/// normalising it again leaves it unchanged.
pub proof fn parsed_tags_are_canonical(value: Seq<char>)
    ensures
        forall|t: Seq<char>|
            #[trigger] parsed_tags(value).contains(t) ==> t.len() > 0 && normalize_tag(t) == t
                && !t.contains(','),
{
    lemma_split_pieces_lack_sep(value, ',');
    assert forall|t: Seq<char>| #[trigger] parsed_tags(value).contains(t) implies t.len() > 0
        && normalize_tag(t) == t && !t.contains(',') by {
        let pieces = split_on(value, ',');
        let i = choose|i: int| 0 <= i < pieces.len() && normalize_tag(pieces[i]) == t;
        let p = pieces[i];
        lemma_trim_idempotent(p);
        lemma_trim_start_lower(trim(p));
        lemma_trim_end_lower(trim_start(trim(p)));
        assert(trim(ascii_lower_seq(trim(p))) == ascii_lower_seq(trim(trim(p))));
        assert forall|k: int| 0 <= k < t.len() implies #[trigger] ascii_lower(t[k]) == t[k] by {
            lemma_lower_keeps_white_space(trim(p)[k]);
        }
        assert(ascii_lower_seq(t) =~= t);
        lemma_trim_keeps_absent(p, ',');
        if t.contains(',') {
            let k = choose|k: int| 0 <= k < t.len() && t[k] == ',';
            assert(trim(p)[k] == ',');
        }
    }
}

/// Parsing is stable: writing the enabled tags back out, in any order, each
/// once or more, comma-separated, and parsing that enables the same tags.
pub proof fn reparsing_tags_gives_them_back(value: Seq<char>, listing: Seq<Seq<char>>)
    requires
        listing.to_set() == parsed_tags(value),
    ensures
        parsed_tags(join_with(listing, ',')) == parsed_tags(value),
{
    parsed_tags_are_canonical(value);
    let joined = join_with(listing, ',');
    if listing.len() == 0 {
        assert(split_on(joined, ',') =~= seq![Seq::<char>::empty()]);
        assert(trim(Seq::<char>::empty()) =~= Seq::<char>::empty());
        assert(parsed_tags(joined) =~= Set::<Seq<char>>::empty());
        assert(parsed_tags(value) =~= Set::<Seq<char>>::empty()) by {
            assert forall|t: Seq<char>| !parsed_tags(value).contains(t) by {
                if parsed_tags(value).contains(t) {
                    assert(listing.to_set().contains(t));
                }
            }
        }
    } else {
        assert forall|i: int| 0 <= i < listing.len() implies !(#[trigger] listing[i]).contains(
            ',',
        ) by {
            assert(listing.to_set().contains(listing[i]));
        }
        lemma_split_join(listing, ',');
        assert forall|t: Seq<char>| parsed_tags(joined).contains(t) implies parsed_tags(
            value,
        ).contains(t) by {
            let i = choose|i: int| 0 <= i < listing.len() && normalize_tag(listing[i]) == t;
            assert(listing.to_set().contains(listing[i]));
        }
        assert forall|t: Seq<char>| parsed_tags(value).contains(t) implies parsed_tags(
            joined,
        ).contains(t) by {
            assert(listing.to_set().contains(t));
            let i = choose|i: int| 0 <= i < listing.len() && listing[i] == t;
            assert(normalize_tag(listing[i]) == t);
        }
        assert(parsed_tags(joined) =~= parsed_tags(value));
    }
}

/// Add the tag one entry stands for, if it is not empty.
fn add_piece(tags: &mut StringHashSet, piece: &Vec<char>)
    ensures
        final(tags)@ == (if normalize_tag(piece@).len() > 0 {
            old(tags)@.insert(normalize_tag(piece@))
        } else {
            old(tags)@
        }),
{
    let (lo, hi) = trim_bounds(piece);
    if lo < hi {
        let tag = lower_range(piece, lo, hi);
        tags.insert(tag);
    }
}

/// Split a `DUNGEON_MANAGER_LOG` value into tags: every comma-separated
/// entry, trimmed and ASCII-lowercased, with empty entries dropped.
pub fn parse_tags(value: &str) -> (tags: StringHashSet)
    ensures
        tags@ == parsed_tags(value@),
{
    let cs = chars_of(value);
    let mut tags = StringHashSet::new();
    let mut cur: Vec<char> = Vec::new();
    let ghost mut done: Seq<Seq<char>> = Seq::empty();
    let mut i: usize = 0;
    assert(cs@.take(0) =~= Seq::<char>::empty());
    assert(tags@ =~= tags_of_pieces(done));
    while i < cs.len()
        invariant
            cs@ == value@,
            i <= cs@.len(),
            split_scan(cs@.take(i as int), ',') == (done, cur@),
            tags@ == tags_of_pieces(done),
        decreases cs@.len() - i,
    {
        let c = cs[i];
        assert(cs@.take(i + 1).drop_last() =~= cs@.take(i as int));
        assert(cs@.take(i + 1).last() == c);
        if c == ',' {
            add_piece(&mut tags, &cur);
            proof {
                lemma_tags_of_push(done, cur@);
                done = done.push(cur@);
            }
            cur = Vec::new();
        } else {
            cur.push(c);
        }
        i = i + 1;
    }
    assert(cs@.take(cs@.len() as int) =~= cs@);
    add_piece(&mut tags, &cur);
    proof {
        lemma_tags_of_push(done, cur@);
    }
    tags
}

/// Whether `tag` should be traced given a parsed tag set: always under
/// `all`, otherwise when its ASCII-lowercased form is in the set.
pub fn tags_allow(tags: &StringHashSet, tag: &str) -> (r: bool)
    ensures
        r == allows(tags@, tag@),
{
    if tags.contains("all") {
        return true;
    }
    let lower = to_ascii_lower(tag);
    tags.contains(lower.as_str())
}

} // verus!
