//! Genre lists merged across drives, and their display order.

use vstd::prelude::*;

use crate::media::{genre_display, GenreRow};
use crate::order::{
    chars_lt, chars_lt_exec, lemma_chars_lt_props, sort_by_text_key, sorted_by_text_key, stable_by_text_key,
    text_key_is, TextKeyed,
};
use crate::text::{chars_of, lowercase_of, str_eq, to_lowercase};

verus! {

/// Index of the last genre of `acc` with this id and media type.
pub open spec fn genre_index(acc: Seq<GenreRow>, id: i64, media_type: Seq<char>) -> Option<int>
    decreases acc.len(),
{
    if acc.len() == 0 {
        None
    } else if acc.last().id == id && acc.last().media_type@ == media_type {
        Some(acc.len() - 1)
    } else {
        genre_index(acc.drop_last(), id, media_type)
    }
}

/// `acc` after taking in one genre `g` of another drive.
pub open spec fn merge_one(acc: Seq<GenreRow>, g: GenreRow) -> Seq<GenreRow> {
    match genre_index(acc, g.id, g.media_type@) {
        Some(i) => if acc[i].translated_name is None && g.translated_name is Some {
            acc.update(i, GenreRow { translated_name: g.translated_name, ..acc[i] })
        } else {
            acc
        },
        None => acc.push(g),
    }
}

/// `acc` after taking in every genre of `incoming`, in order.
pub open spec fn merge_all(acc: Seq<GenreRow>, incoming: Seq<GenreRow>) -> Seq<GenreRow>
    decreases incoming.len(),
{
    if incoming.len() == 0 {
        acc
    } else {
        merge_one(merge_all(acc, incoming.drop_last()), incoming.last())
    }
}

fn clone_opt(o: &Option<String>) -> (r: Option<String>)
    ensures
        r == *o,
{
    match o {
        Some(s) => Some(s.clone()),
        None => None,
    }
}

fn find_genre(acc: &Vec<GenreRow>, id: i64, media_type: &str) -> (r: Option<usize>)
    ensures
        match r {
            Some(i) => genre_index(acc@, id, media_type@) == Some(i as int) && i < acc.len(),
            None => genre_index(acc@, id, media_type@) is None,
        },
{
    let mut i: usize = acc.len();
    assert(acc@.take(acc.len() as int) =~= acc@);
    while i > 0
        invariant
            i <= acc.len(),
            genre_index(acc@, id, media_type@) == genre_index(acc@.take(i as int), id, media_type@),
        decreases i,
    {
        proof {
            assert(acc@.take(i as int).drop_last() =~= acc@.take(i - 1));
        }
        if acc[i - 1].id == id && str_eq(acc[i - 1].media_type.as_str(), media_type) {
            return Some(i - 1);
        }
        i = i - 1;
    }
    None
}

/// Merge the genres of one drive into the running result. Genres of
/// different drives with the same TMDB id and media type collapse into
/// one entry; a drive that names the genre fills an entry that has no
/// localized name yet.
pub fn merge_genres(acc: &mut Vec<GenreRow>, incoming: Vec<GenreRow>)
    ensures
        final(acc)@ == merge_all(old(acc)@, incoming@),
{
    let ghost start = acc@;
    let mut i: usize = 0;
    while i < incoming.len()
        invariant
            i <= incoming.len(),
            acc@ == merge_all(start, incoming@.take(i as int)),
        decreases incoming.len() - i,
    {
        proof {
            assert(incoming@.take(i + 1).drop_last() =~= incoming@.take(i as int));
            assert(incoming@.take(i + 1).last() == incoming@[i as int]);
        }
        let g = &incoming[i];
        match find_genre(acc, g.id, g.media_type.as_str()) {
            Some(k) => {
                if acc[k].translated_name.is_none() && g.translated_name.is_some() {
                    let cur = &acc[k];
                    let updated = GenreRow {
                        id: cur.id,
                        media_type: cur.media_type.clone(),
                        canonical_name: cur.canonical_name.clone(),
                        translated_name: clone_opt(&g.translated_name),
                    };
                    acc.set(k, updated);
                }
            },
            None => {
                let copy = GenreRow {
                    id: g.id,
                    media_type: g.media_type.clone(),
                    canonical_name: g.canonical_name.clone(),
                    translated_name: clone_opt(&g.translated_name),
                };
                acc.push(copy);
            },
        }
        i = i + 1;
    }
    proof {
        assert(incoming@.take(incoming.len() as int) =~= incoming@);
    }
}

impl TextKeyed for GenreRow {
    open spec fn tkey(&self) -> Seq<char> {
        lowercase_of(genre_display(*self))
    }

    fn text_key(&self) -> (r: Vec<char>) {
        chars_of(to_lowercase(self.display_name()).as_str())
    }
}

/// Sort by display name (translated, else canonical), lowercased; stable.
pub fn sort_genres(rows: &mut Vec<GenreRow>)
    ensures
        sorted_by_text_key(final(rows)@),
        final(rows)@.to_multiset() == old(rows)@.to_multiset(),
        stable_by_text_key(final(rows)@, old(rows)@),
{
    let mut v: Vec<GenreRow> = Vec::new();
    std::mem::swap(&mut v, rows);
    *rows = sort_by_text_key(v);
}


/// The genres of a group as a sequence.
pub open spec fn group_views(r: Seq<Vec<GenreRow>>) -> Seq<Seq<GenreRow>> {
    r.map_values(|v: Vec<GenreRow>| v@)
}

/// The key a group is formed by: its first genre's lowercased display
/// name.
pub open spec fn head_key(g: Seq<GenreRow>) -> Seq<char> {
    g[0].tkey()
}

/// `groups` gathers the genres of `all` by lowercased display name: one
/// non-empty group per name, in increasing order of name, each holding
/// every genre of `all` with that name, in the order of `all`.
pub open spec fn grouped_by_name(groups: Seq<Seq<GenreRow>>, all: Seq<GenreRow>) -> bool {
    &&& forall|i: int|
        0 <= i < groups.len() ==> (#[trigger] groups[i]).len() > 0 && groups[i] == all.filter(
            text_key_is::<GenreRow>(head_key(groups[i])),
        )
    &&& forall|i: int, j: int|
        0 <= i < j < groups.len() ==> chars_lt(head_key(#[trigger] groups[i]), head_key(#[trigger] groups[j]))
    &&& forall|k: int| 0 <= k < all.len() ==> has_group(groups, (#[trigger] all[k]).tkey())
}

/// Some group of `groups` is formed by `key`.
pub open spec fn has_group(groups: Seq<Seq<GenreRow>>, key: Seq<char>) -> bool {
    exists|i: int| 0 <= i < groups.len() && head_key(#[trigger] groups[i]) == key
}

/// Genres that collide on display name (compared lowercased), grouped:
/// these are shown as one and share one folder on disk.
pub fn group_by_display_name(all: Vec<GenreRow>) -> (r: Vec<Vec<GenreRow>>)
    ensures
        grouped_by_name(group_views(r@), all@),
{
    let ghost orig = all@;
    let mut src = all;
    let mut groups: Vec<Vec<GenreRow>> = Vec::new();
    let mut keys: Vec<Vec<char>> = Vec::new();
    let n = src.len();
    let mut done: usize = 0;
    while src.len() > 0
        invariant
            done + src.len() == n,
            n == orig.len(),
            src@ == orig.subrange(done as int, n as int),
            keys.len() == groups.len(),
            forall|i: int| 0 <= i < groups.len() ==> (#[trigger] groups@[i])@.len() > 0 && keys@[i]@
                == head_key(groups@[i]@),
            forall|i: int|
                0 <= i < groups.len() ==> (#[trigger] groups@[i])@ == orig.take(done as int).filter(
                    text_key_is::<GenreRow>(keys@[i]@),
                ),
            forall|i: int, j: int| 0 <= i < j < keys.len() ==> chars_lt(#[trigger] keys@[i]@, #[trigger] keys@[j]@),
            forall|k: int|
                #![trigger orig[k]]
                0 <= k < done ==> exists|i: int| 0 <= i < keys.len() && #[trigger] keys@[i]@ == orig[k].tkey(),
        decreases src.len(),
    {
        let x = src.remove(0);
        proof {
            assert(x == orig[done as int]);
            assert(orig.take(done + 1) =~= orig.take(done as int).push(x));
            assert(src@ =~= orig.subrange(done + 1, n as int));
        }
        let c = x.text_key();
        let mut p: usize = 0;
        while p < keys.len() && chars_lt_exec(&keys[p], &c)
            invariant
                p <= keys.len(),
                forall|i: int| 0 <= i < p ==> chars_lt(#[trigger] keys@[i]@, c@),
            decreases keys.len() - p,
        {
            p = p + 1;
        }
        let ghost pre = orig.take(done as int);
        let ghost gs = groups@;
        let ghost ks = keys@;
        if p < keys.len() && crate::text::chars_eq(&keys[p], &c) {
            let mut g = groups.remove(p);
            let ghost g0 = g@;
            g.push(x);
            groups.insert(p, g);
            proof {
                assert forall|i: int| 0 <= i < groups.len() implies (#[trigger] groups@[i])@.len() > 0 && keys@[i]@
                    == head_key(groups@[i]@) by {
                    if i == p {
                        assert(groups@[i]@ == g0.push(x));
                        assert(g0.push(x)[0] == g0[0]);
                    } else {
                        assert(groups@[i] == gs[i]);
                    }
                }
                assert forall|i: int| 0 <= i < groups.len() implies (#[trigger] groups@[i])@ == orig.take(
                    done + 1,
                ).filter(text_key_is::<GenreRow>(keys@[i]@)) by {
                    let f = text_key_is::<GenreRow>(keys@[i]@);
                    pre.lemma_filter_push(x, f);
                    if i == p {
                        assert(groups@[i]@ == g0.push(x));
                    } else {
                        assert(groups@[i] == gs[i]);
                        lemma_chars_lt_props(ks[i]@, ks[p as int]@, ks[i]@);
                        if i < p {
                            assert(chars_lt(ks[i]@, ks[p as int]@));
                        } else {
                            assert(chars_lt(ks[p as int]@, ks[i]@));
                        }
                    }
                }
                assert forall|k: int| #![trigger orig[k]] 0 <= k < done + 1 implies exists|i: int|
                    0 <= i < keys.len() && #[trigger] keys@[i]@ == orig[k].tkey() by {
                    if k == done {
                        assert(keys@[p as int]@ == orig[k].tkey());
                    }
                }
            }
        } else {
            proof {
                if p < keys.len() {
                    lemma_chars_lt_props(ks[p as int]@, c@, ks[p as int]@);
                    assert(chars_lt(c@, ks[p as int]@));
                }
                assert forall|i: int| p <= i < ks.len() implies chars_lt(c@, #[trigger] ks[i]@) by {
                    if i > p {
                        lemma_chars_lt_props(c@, ks[p as int]@, ks[i]@);
                    }
                }
                assert forall|i: int| 0 <= i < ks.len() implies #[trigger] ks[i]@ != c@ by {
                    lemma_chars_lt_props(c@, c@, c@);
                    if i < p {
                        assert(chars_lt(ks[i]@, c@));
                    } else {
                        assert(chars_lt(c@, ks[i]@));
                    }
                }
                let f = text_key_is::<GenreRow>(c@);
                assert(pre.all(|y: GenreRow| !f(y))) by {
                    assert forall|m: int| 0 <= m < pre.len() implies !f(#[trigger] pre[m]) by {
                        assert(pre[m] == orig[m]);
                        let i = choose|i: int| 0 <= i < ks.len() && #[trigger] ks[i]@ == orig[m].tkey();
                        assert(ks[i]@ != c@);
                    }
                }
                pre.lemma_all_neg_filter_empty(f);
                pre.lemma_filter_push(x, f);
            }
            let mut g: Vec<GenreRow> = Vec::new();
            g.push(x);
            let ghost gv = g@;
            groups.insert(p, g);
            keys.insert(p, c);
            proof {
                let f = text_key_is::<GenreRow>(c@);
                assert(gv =~= orig.take(done + 1).filter(f));
                assert forall|i: int| 0 <= i < groups.len() implies (#[trigger] groups@[i])@.len() > 0 && keys@[i]@
                    == head_key(groups@[i]@) by {
                    if i < p {
                        assert(groups@[i] == gs[i] && keys@[i] == ks[i]);
                    } else if i > p {
                        assert(groups@[i] == gs[i - 1] && keys@[i] == ks[i - 1]);
                    }
                }
                assert forall|i: int| 0 <= i < groups.len() implies (#[trigger] groups@[i])@ == orig.take(
                    done + 1,
                ).filter(text_key_is::<GenreRow>(keys@[i]@)) by {
                    if i != p {
                        let j = if i < p { i } else { i - 1 };
                        assert(groups@[i] == gs[j] && keys@[i] == ks[j]);
                        pre.lemma_filter_push(x, text_key_is::<GenreRow>(ks[j]@));
                        assert(ks[j]@ != c@);
                    }
                }
                assert forall|i: int, j: int| 0 <= i < j < keys.len() implies chars_lt(
                    #[trigger] keys@[i]@,
                    #[trigger] keys@[j]@,
                ) by {
                    if j < p {
                        assert(keys@[i] == ks[i] && keys@[j] == ks[j]);
                    } else if j == p {
                        assert(keys@[i] == ks[i]);
                    } else if i < p {
                        assert(keys@[i] == ks[i] && keys@[j] == ks[j - 1]);
                        lemma_chars_lt_props(ks[i]@, c@, ks[j - 1]@);
                    } else if i == p {
                        assert(keys@[j] == ks[j - 1]);
                    } else {
                        assert(keys@[i] == ks[i - 1] && keys@[j] == ks[j - 1]);
                    }
                }
                assert forall|k: int| #![trigger orig[k]] 0 <= k < done + 1 implies exists|i: int|
                    0 <= i < keys.len() && #[trigger] keys@[i]@ == orig[k].tkey() by {
                    if k == done {
                        assert(keys@[p as int]@ == orig[k].tkey());
                    } else {
                        let i = choose|i: int| 0 <= i < ks.len() && #[trigger] ks[i]@ == orig[k].tkey();
                        if i < p {
                            assert(keys@[i] == ks[i]);
                        } else {
                            assert(keys@[i + 1] == ks[i]);
                        }
                    }
                }
            }
        }
        done = done + 1;
    }
    proof {
        assert(orig.take(n as int) =~= orig);
        let gv = group_views(groups@);
        assert forall|i: int| 0 <= i < gv.len() implies (#[trigger] gv[i]).len() > 0 && gv[i] == orig.filter(
            text_key_is::<GenreRow>(head_key(gv[i])),
        ) by {
            assert(gv[i] == groups@[i]@);
        }
        assert forall|i: int, j: int| 0 <= i < j < gv.len() implies chars_lt(
            head_key(#[trigger] gv[i]),
            head_key(#[trigger] gv[j]),
        ) by {
            assert(gv[i] == groups@[i]@ && gv[j] == groups@[j]@);
            assert(keys@[i]@ == head_key(groups@[i]@));
            assert(keys@[j]@ == head_key(groups@[j]@));
        }
        assert forall|k: int| 0 <= k < orig.len() implies has_group(gv, (#[trigger] orig[k]).tkey()) by {
            let i = choose|i: int| 0 <= i < keys.len() && #[trigger] keys@[i]@ == orig[k].tkey();
            assert(gv[i] == groups@[i]@);
            assert(keys@[i]@ == head_key(groups@[i]@));
            assert(head_key(gv[i]) == orig[k].tkey());
        }
        assert(grouped_by_name(gv, orig));
    }
    groups
}

/// No two genres of `acc` share an id and a media type.
pub open spec fn keys_unique(acc: Seq<GenreRow>) -> bool {
    forall|i: int, j: int|
        0 <= i < j < acc.len() ==> !(#[trigger] acc[i].id == #[trigger] acc[j].id && acc[i].media_type@
            == acc[j].media_type@)
}

proof fn lemma_genre_index_none(acc: Seq<GenreRow>, id: i64, mt: Seq<char>)
    requires
        genre_index(acc, id, mt) is None,
    ensures
        forall|i: int| 0 <= i < acc.len() ==> !(#[trigger] acc[i].id == id && acc[i].media_type@ == mt),
    decreases acc.len(),
{
    if acc.len() > 0 {
        lemma_genre_index_none(acc.drop_last(), id, mt);
        assert forall|i: int| 0 <= i < acc.len() implies !(#[trigger] acc[i].id == id && acc[i].media_type@ == mt) by {
            if i < acc.len() - 1 {
                assert(acc[i] == acc.drop_last()[i]);
            }
        }
    }
}

proof fn lemma_genre_index_some(acc: Seq<GenreRow>, id: i64, mt: Seq<char>)
    requires
        genre_index(acc, id, mt) is Some,
    ensures
        0 <= genre_index(acc, id, mt).unwrap() < acc.len(),
    decreases acc.len(),
{
    if acc.len() > 0 && !(acc.last().id == id && acc.last().media_type@ == mt) {
        lemma_genre_index_some(acc.drop_last(), id, mt);
    }
}

/// Merging the genres of another drive keeps one entry per genre: when
/// no two entries shared an id and media type before, none do after.
pub proof fn law_merge_keeps_genres_unique(acc: Seq<GenreRow>, incoming: Seq<GenreRow>)
    requires
        keys_unique(acc),
    ensures
        keys_unique(merge_all(acc, incoming)),
    decreases incoming.len(),
{
    if incoming.len() > 0 {
        law_merge_keeps_genres_unique(acc, incoming.drop_last());
        let a = merge_all(acc, incoming.drop_last());
        let g = incoming.last();
        match genre_index(a, g.id, g.media_type@) {
            Some(i) => {
                lemma_genre_index_some(a, g.id, g.media_type@);
                if a[i].translated_name is None && g.translated_name is Some {
                    let b = a.update(i, GenreRow { translated_name: g.translated_name, ..a[i] });
                    assert forall|x: int, y: int| 0 <= x < y < b.len() implies !(#[trigger] b[x].id
                        == #[trigger] b[y].id && b[x].media_type@ == b[y].media_type@) by {
                        assert(b[x].id == a[x].id && b[x].media_type == a[x].media_type);
                        assert(b[y].id == a[y].id && b[y].media_type == a[y].media_type);
                    }
                }
            },
            None => {
                lemma_genre_index_none(a, g.id, g.media_type@);
                let b = a.push(g);
                assert forall|x: int, y: int| 0 <= x < y < b.len() implies !(#[trigger] b[x].id
                    == #[trigger] b[y].id && b[x].media_type@ == b[y].media_type@) by {
                    if y < a.len() {
                        assert(b[x] == a[x] && b[y] == a[y]);
                    } else {
                        assert(b[x] == a[x]);
                        assert(b[y] == g);
                    }
                }
            },
        }
    }
}

/// Changing an entry but not its id and media type moves no genre.
proof fn lemma_genre_index_update(acc: Seq<GenreRow>, j: int, y: GenreRow, id: i64, mt: Seq<char>)
    requires
        0 <= j < acc.len(),
        y.id == acc[j].id,
        y.media_type@ == acc[j].media_type@,
    ensures
        genre_index(acc.update(j, y), id, mt) == genre_index(acc, id, mt),
    decreases acc.len(),
{
    let b = acc.update(j, y);
    if j < acc.len() - 1 {
        assert(b.drop_last() =~= acc.drop_last().update(j, y));
        assert(b.last() == acc.last());
        lemma_genre_index_update(acc.drop_last(), j, y, id, mt);
    } else {
        assert(b.drop_last() =~= acc.drop_last());
    }
}

/// A drive that names a genre wins: after merging, the entry of every
/// incoming genre that has a translated name has one too.
pub proof fn law_translation_wins(acc: Seq<GenreRow>, incoming: Seq<GenreRow>, k: int)
    requires
        0 <= k < incoming.len(),
        incoming[k].translated_name is Some,
    ensures
        genre_index(merge_all(acc, incoming), incoming[k].id, incoming[k].media_type@) matches Some(i)
            && merge_all(acc, incoming)[i].translated_name is Some,
    decreases incoming.len(),
{
    let a = merge_all(acc, incoming.drop_last());
    let g = incoming.last();
    let r = merge_all(acc, incoming);
    assert(r == merge_one(a, g));
    let id = incoming[k].id;
    let mt = incoming[k].media_type@;
    if k == incoming.len() - 1 {
        match genre_index(a, g.id, g.media_type@) {
            Some(i) => {
                lemma_genre_index_some(a, g.id, g.media_type@);
                if a[i].translated_name is None {
                    let y = GenreRow { translated_name: g.translated_name, ..a[i] };
                    lemma_genre_index_update(a, i, y, id, mt);
                }
            },
            None => {
                assert(r.drop_last() =~= a);
            },
        }
    } else {
        assert(incoming.drop_last()[k] == incoming[k]);
        law_translation_wins(acc, incoming.drop_last(), k);
        let i = genre_index(a, id, mt).unwrap();
        lemma_genre_index_some(a, id, mt);
        match genre_index(a, g.id, g.media_type@) {
            Some(j) => {
                lemma_genre_index_some(a, g.id, g.media_type@);
                if a[j].translated_name is None && g.translated_name is Some {
                    let y = GenreRow { translated_name: g.translated_name, ..a[j] };
                    lemma_genre_index_update(a, j, y, id, mt);
                    assert(j != i);
                }
            },
            None => {
                assert(!(g.id == id && g.media_type@ == mt));
                assert(r.drop_last() =~= a);
            },
        }
    }
}

} // verus!
