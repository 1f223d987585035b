//! Dominant-colour extraction: tally the exact RGB triples of a buffer,
//! order them by how often they occur, and name each one.

use vstd::prelude::*;

use crate::buffer::Pixel;
use crate::buffer::PixelBuffer;
use crate::color::color_name_lookup;
use crate::color::color_name_of;
use crate::utils::hex_digit;
use crate::utils::rgb_to_hex;
use crate::utils::spec_rgb_to_hex;

verus! {

/// A dominant-colour request: where the image comes from.
#[derive(Debug)]
pub struct DominantColorQueryParams {
    pub url: String,
}

/// One colour of the image: its hex form, its name if the colour table has
/// one, and how many pixels carry it.
#[derive(Debug)]
pub struct DominantColorEntry {
    pub color: String,
    pub color_name: Option<String>,
    pub pixels_counted: u32,
}

/// How many pixels of the buffer carry exactly this RGB triple.
pub open spec fn count_rgb(bv: Seq<Pixel>, r: u8, g: u8, b: u8) -> int
    decreases bv.len(),
{
    if bv.len() == 0 {
        0
    } else {
        count_rgb(bv.drop_last(), r, g, b) + (if bv.last().r == r && bv.last().g == g
            && bv.last().b == b {
            1int
        } else {
            0int
        })
    }
}

/// A count is between 0 and the number of pixels.
pub proof fn lemma_count_rgb_bounds(bv: Seq<Pixel>, r: u8, g: u8, b: u8)
    ensures
        0 <= count_rgb(bv, r, g, b) <= bv.len(),
    decreases bv.len(),
{
    if bv.len() > 0 {
        lemma_count_rgb_bounds(bv.drop_last(), r, g, b);
    }
}

/// Counting one more pixel raises exactly the count of its own triple.
proof fn lemma_count_step(bv: Seq<Pixel>, t: int, r: u8, g: u8, b: u8)
    requires
        0 <= t < bv.len(),
    ensures
        count_rgb(bv.take(t + 1), r, g, b) == count_rgb(bv.take(t), r, g, b) + (if bv[t].r == r
            && bv[t].g == g && bv[t].b == b {
            1int
        } else {
            0int
        }),
{
    assert(bv.take(t + 1).drop_last() =~= bv.take(t));
    assert(bv.take(t + 1).last() == bv[t]);
}

/// Distinct hexadecimal digits come from distinct values.
proof fn lemma_hex_digit_injective(a: int, b: int)
    requires
        0 <= a < 16,
        0 <= b < 16,
        hex_digit(a) == hex_digit(b),
    ensures
        a == b,
{
}

/// The `#rrggbb` rendering determines the triple.
pub proof fn lemma_rgb_hex_injective(r1: u8, g1: u8, b1: u8, r2: u8, g2: u8, b2: u8)
    requires
        spec_rgb_to_hex(r1, g1, b1) == spec_rgb_to_hex(r2, g2, b2),
    ensures
        r1 == r2,
        g1 == g2,
        b1 == b2,
{
    let s1 = spec_rgb_to_hex(r1, g1, b1);
    let s2 = spec_rgb_to_hex(r2, g2, b2);
    assert(s1[1] == hex_digit(r1 as int / 16) && s1[2] == hex_digit(r1 as int % 16));
    assert(s1[3] == hex_digit(g1 as int / 16) && s1[4] == hex_digit(g1 as int % 16));
    assert(s1[5] == hex_digit(b1 as int / 16) && s1[6] == hex_digit(b1 as int % 16));
    assert(s2[1] == hex_digit(r2 as int / 16) && s2[2] == hex_digit(r2 as int % 16));
    assert(s2[3] == hex_digit(g2 as int / 16) && s2[4] == hex_digit(g2 as int % 16));
    assert(s2[5] == hex_digit(b2 as int / 16) && s2[6] == hex_digit(b2 as int % 16));
    lemma_hex_digit_injective(r1 as int / 16, r2 as int / 16);
    lemma_hex_digit_injective(r1 as int % 16, r2 as int % 16);
    lemma_hex_digit_injective(g1 as int / 16, g2 as int / 16);
    lemma_hex_digit_injective(g1 as int % 16, g2 as int % 16);
    lemma_hex_digit_injective(b1 as int / 16, b2 as int / 16);
    lemma_hex_digit_injective(b1 as int % 16, b2 as int % 16);
}

/// Every tally carries the true count of its triple, and at least 1.
spec fn tallies_ok(ts: Seq<(u8, u8, u8, u32)>, bv: Seq<Pixel>) -> bool {
    forall|i: int|
        0 <= i < ts.len() ==> (#[trigger] ts[i]).3 == count_rgb(bv, ts[i].0, ts[i].1, ts[i].2)
            && ts[i].3 >= 1
}

/// No triple appears in two tallies.
spec fn tallies_distinct(ts: Seq<(u8, u8, u8, u32)>) -> bool {
    forall|i: int, j: int|
        0 <= i < j < ts.len() ==> !((#[trigger] ts[i]).0 == (#[trigger] ts[j]).0 && ts[i].1
            == ts[j].1 && ts[i].2 == ts[j].2)
}

/// Every triple occurring in the buffer has a tally.
spec fn tallies_complete(ts: Seq<(u8, u8, u8, u32)>, bv: Seq<Pixel>) -> bool {
    forall|r: u8, g: u8, b: u8|
        #[trigger] count_rgb(bv, r, g, b) >= 1 ==> exists|i: int|
            0 <= i < ts.len() && (#[trigger] ts[i]).0 == r && ts[i].1 == g && ts[i].2 == b
}

/// Position of the triple among the tallies, if it is there.
fn find_tally(ts: &Vec<(u8, u8, u8, u32)>, r: u8, g: u8, b: u8) -> (res: Option<usize>)
    ensures
        match res {
            Some(i) => i < ts@.len() && ts@[i as int].0 == r && ts@[i as int].1 == g
                && ts@[i as int].2 == b,
            None => forall|j: int|
                0 <= j < ts@.len() ==> !((#[trigger] ts@[j]).0 == r && ts@[j].1 == g && ts@[j].2
                    == b),
        },
{
    let n = ts.len();
    let mut j: usize = 0;
    while j < n
        invariant
            j <= n,
            n == ts@.len(),
            forall|k: int|
                0 <= k < j ==> !((#[trigger] ts@[k]).0 == r && ts@[k].1 == g && ts@[k].2 == b),
        decreases n - j,
    {
        let e = ts[j];
        if e.0 == r && e.1 == g && e.2 == b {
            return Some(j);
        }
        j = j + 1;
    }
    None
}

/// Tally every RGB triple of the buffer.
fn tally_colors(img: &PixelBuffer) -> (ts: Vec<(u8, u8, u8, u32)>)
    requires
        img@.len() <= u32::MAX,
    ensures
        tallies_ok(ts@, img@),
        tallies_distinct(ts@),
        tallies_complete(ts@, img@),
{
    let n = img.pixel_count();
    let mut ts: Vec<(u8, u8, u8, u32)> = Vec::new();
    let mut t: usize = 0;
    while t < n
        invariant
            t <= n,
            n == img@.len(),
            img@.len() <= u32::MAX,
            tallies_ok(ts@, img@.take(t as int)),
            tallies_distinct(ts@),
            tallies_complete(ts@, img@.take(t as int)),
        decreases n - t,
    {
        let p = img.get_linear(t);
        let ghost pre = ts@;
        let ghost bt = img@.take(t as int);
        let ghost bt1 = img@.take(t as int + 1);
        match find_tally(&ts, p.r, p.g, p.b) {
            Some(i) => {
                let e = ts[i];
                proof {
                    lemma_count_rgb_bounds(bt, e.0, e.1, e.2);
                }
                ts.set(i, (e.0, e.1, e.2, e.3 + 1));
                proof {
                    assert forall|k: int| 0 <= k < ts@.len() implies (#[trigger] ts@[k]).3
                        == count_rgb(bt1, ts@[k].0, ts@[k].1, ts@[k].2) && ts@[k].3 >= 1 by {
                        lemma_count_step(img@, t as int, ts@[k].0, ts@[k].1, ts@[k].2);
                        if k != i {
                            assert(ts@[k] == pre[k]);
                            assert(pre[k].3 == count_rgb(bt, pre[k].0, pre[k].1, pre[k].2));
                        } else {
                            assert(e == pre[i as int]);
                            assert(pre[i as int].3 == count_rgb(
                                bt,
                                pre[i as int].0,
                                pre[i as int].1,
                                pre[i as int].2,
                            ));
                            assert(img@[t as int] == p);
                            assert(ts@[k].0 == p.r && ts@[k].1 == p.g && ts@[k].2 == p.b);
                            assert(count_rgb(bt1, ts@[k].0, ts@[k].1, ts@[k].2) == count_rgb(
                                bt,
                                ts@[k].0,
                                ts@[k].1,
                                ts@[k].2,
                            ) + 1);
                        }
                    }
                    assert forall|r: u8, g: u8, b: u8|
                        #[trigger] count_rgb(bt1, r, g, b) >= 1 implies exists|q: int|
                        0 <= q < ts@.len() && (#[trigger] ts@[q]).0 == r && ts@[q].1 == g
                            && ts@[q].2 == b by {
                        lemma_count_step(img@, t as int, r, g, b);
                        if r == p.r && g == p.g && b == p.b {
                            assert(ts@[i as int].0 == r && ts@[i as int].1 == g && ts@[i as int].2
                                == b);
                        } else {
                            assert(count_rgb(bt, r, g, b) >= 1);
                            let q = choose|q: int|
                                0 <= q < pre.len() && (#[trigger] pre[q]).0 == r && pre[q].1 == g
                                    && pre[q].2 == b;
                            assert(ts@[q].0 == r && ts@[q].1 == g && ts@[q].2 == b);
                        }
                    }
                }
            },
            None => {
                proof {
                    lemma_count_step(img@, t as int, p.r, p.g, p.b);
                    lemma_count_rgb_bounds(bt, p.r, p.g, p.b);
                    if count_rgb(bt, p.r, p.g, p.b) >= 1 {
                        let q = choose|q: int|
                            0 <= q < pre.len() && (#[trigger] pre[q]).0 == p.r && pre[q].1 == p.g
                                && pre[q].2 == p.b;
                        assert(false);
                    }
                }
                ts.push((p.r, p.g, p.b, 1));
                proof {
                    assert forall|k: int| 0 <= k < ts@.len() implies (#[trigger] ts@[k]).3
                        == count_rgb(bt1, ts@[k].0, ts@[k].1, ts@[k].2) && ts@[k].3 >= 1 by {
                        lemma_count_step(img@, t as int, ts@[k].0, ts@[k].1, ts@[k].2);
                        if k < pre.len() {
                            assert(ts@[k] == pre[k]);
                            assert(pre[k].3 == count_rgb(bt, pre[k].0, pre[k].1, pre[k].2));
                        } else {
                            assert(ts@[k] == (p.r, p.g, p.b, 1u32));
                            assert(img@[t as int] == p);
                            assert(count_rgb(bt, p.r, p.g, p.b) == 0);
                        }
                    }
                    assert forall|r: u8, g: u8, b: u8|
                        #[trigger] count_rgb(bt1, r, g, b) >= 1 implies exists|q: int|
                        0 <= q < ts@.len() && (#[trigger] ts@[q]).0 == r && ts@[q].1 == g
                            && ts@[q].2 == b by {
                        lemma_count_step(img@, t as int, r, g, b);
                        if r == p.r && g == p.g && b == p.b {
                            assert(ts@[pre.len() as int].0 == r && ts@[pre.len() as int].1 == g
                                && ts@[pre.len() as int].2 == b);
                        } else {
                            assert(count_rgb(bt, r, g, b) >= 1);
                            let q = choose|q: int|
                                0 <= q < pre.len() && (#[trigger] pre[q]).0 == r && pre[q].1 == g
                                    && pre[q].2 == b;
                            assert(ts@[q].0 == r && ts@[q].1 == g && ts@[q].2 == b);
                        }
                    }
                }
            },
        }
        t = t + 1;
    }
    proof {
        assert(img@.take(n as int) =~= img@);
    }
    ts
}

/// One entry of the reply describes one RGB triple of the image: the hex
/// form, the true pixel count, and the looked-up name all belong to it.
pub open spec fn entry_describes(e: DominantColorEntry, bv: Seq<Pixel>, r: u8, g: u8, b: u8) -> bool {
    &&& e.color@ == spec_rgb_to_hex(r, g, b)
    &&& e.pixels_counted == count_rgb(bv, r, g, b)
    &&& count_rgb(bv, r, g, b) >= 1
    &&& (match e.color_name {
        Some(n) => color_name_of(r, g, b) == Some(n@),
        None => color_name_of(r, g, b) is None,
    })
}

/// Order the tallies by count, most frequent first, by repeatedly moving
/// the largest remaining tally over. Every property of the tallies --
/// correct counts, distinct triples, completeness -- survives the
/// reordering.
#[verifier::rlimit(50)]
fn sort_tallies(work: Vec<(u8, u8, u8, u32)>, Ghost(bv): Ghost<Seq<Pixel>>) -> (sorted: Vec<
    (u8, u8, u8, u32),
>)
    requires
        tallies_ok(work@, bv),
        tallies_distinct(work@),
        tallies_complete(work@, bv),
    ensures
        tallies_ok(sorted@, bv),
        tallies_distinct(sorted@),
        tallies_complete(sorted@, bv),
        forall|i1: int, i2: int|
            0 <= i1 <= i2 < sorted@.len() ==> (#[trigger] sorted@[i1]).3
                >= (#[trigger] sorted@[i2]).3,
{
    let mut work = work;
    let mut sorted: Vec<(u8, u8, u8, u32)> = Vec::new();
    while work.len() > 0
        invariant
            tallies_ok(work@, bv),
            tallies_ok(sorted@, bv),
            tallies_distinct(work@),
            tallies_distinct(sorted@),
            forall|i: int, k: int|
                0 <= i < sorted@.len() && 0 <= k < work@.len() ==> !((#[trigger] sorted@[i]).0
                    == (#[trigger] work@[k]).0 && sorted@[i].1 == work@[k].1 && sorted@[i].2
                    == work@[k].2),
            forall|r: u8, g: u8, b: u8|
                #[trigger] count_rgb(bv, r, g, b) >= 1 ==> (exists|i: int|
                    0 <= i < sorted@.len() && (#[trigger] sorted@[i]).0 == r && sorted@[i].1 == g
                        && sorted@[i].2 == b) || (exists|k: int|
                    0 <= k < work@.len() && (#[trigger] work@[k]).0 == r && work@[k].1 == g
                        && work@[k].2 == b),
            forall|i1: int, i2: int|
                0 <= i1 <= i2 < sorted@.len() ==> (#[trigger] sorted@[i1]).3
                    >= (#[trigger] sorted@[i2]).3,
            forall|i: int, k: int|
                0 <= i < sorted@.len() && 0 <= k < work@.len() ==> (#[trigger] sorted@[i]).3
                    >= (#[trigger] work@[k]).3,
        decreases work.len(),
    {
        let m = work.len();
        let mut mi: usize = 0;
        let mut j: usize = 1;
        while j < m
            invariant
                1 <= j <= m,
                mi < j,
                m == work@.len(),
                forall|k: int| 0 <= k < j ==> work@[mi as int].3 >= (#[trigger] work@[k]).3,
            decreases m - j,
        {
            if work[j].3 > work[mi].3 {
                mi = j;
            }
            j = j + 1;
        }
        let ghost wpre = work@;
        let ghost spre = sorted@;
        let e = work.remove(mi);
        sorted.push(e);
        proof {
            assert(work@ == wpre.remove(mi as int));
            assert forall|k: int| 0 <= k < work@.len() implies #[trigger] work@[k] == (if k
                < mi as int {
                wpre[k]
            } else {
                wpre[k + 1]
            }) by {}
            assert forall|r: u8, g: u8, b: u8|
                #[trigger] count_rgb(bv, r, g, b) >= 1 implies (exists|i: int|
                0 <= i < sorted@.len() && (#[trigger] sorted@[i]).0 == r && sorted@[i].1 == g
                    && sorted@[i].2 == b) || (exists|k: int|
                0 <= k < work@.len() && (#[trigger] work@[k]).0 == r && work@[k].1 == g
                    && work@[k].2 == b) by {
                if exists|i: int|
                    0 <= i < spre.len() && (#[trigger] spre[i]).0 == r && spre[i].1 == g
                        && spre[i].2 == b {
                    let i = choose|i: int|
                        0 <= i < spre.len() && (#[trigger] spre[i]).0 == r && spre[i].1 == g
                            && spre[i].2 == b;
                    assert(sorted@[i].0 == r && sorted@[i].1 == g && sorted@[i].2 == b);
                } else if exists|k: int|
                    0 <= k < wpre.len() && (#[trigger] wpre[k]).0 == r && wpre[k].1 == g
                        && wpre[k].2 == b {
                    let k = choose|k: int|
                        0 <= k < wpre.len() && (#[trigger] wpre[k]).0 == r && wpre[k].1 == g
                            && wpre[k].2 == b;
                    if k == mi as int {
                        assert(sorted@[sorted@.len() - 1].0 == r && sorted@[sorted@.len() - 1].1
                            == g && sorted@[sorted@.len() - 1].2 == b);
                    } else if k < mi as int {
                        assert(work@[k].0 == r && work@[k].1 == g && work@[k].2 == b);
                    } else {
                        assert(work@[k - 1].0 == r && work@[k - 1].1 == g && work@[k - 1].2 == b);
                    }
                }
            }
        }
    }
    sorted
}

/// The entry describes some RGB triple of the buffer.
pub open spec fn entry_valid(e: DominantColorEntry, bv: Seq<Pixel>) -> bool {
    exists|r: u8, g: u8, b: u8| entry_describes(e, bv, r, g, b)
}

/// The colours of the buffer, one entry per distinct RGB triple, ordered by
/// how many pixels carry them, most frequent first. Every entry describes a
/// triple that occurs, every occurring triple has an entry, and no triple
/// appears twice.
#[verifier::rlimit(50)]
pub fn dominant_colors_of(img: &PixelBuffer) -> (res: Vec<DominantColorEntry>)
    requires
        img@.len() <= u32::MAX,
    ensures
        forall|i: int| 0 <= i < res@.len() ==> entry_valid(#[trigger] res@[i], img@),
        forall|r: u8, g: u8, b: u8|
            #[trigger] count_rgb(img@, r, g, b) >= 1 ==> exists|i: int|
                0 <= i < res@.len() && (#[trigger] res@[i]).color@ == spec_rgb_to_hex(r, g, b)
                    && res@[i].pixels_counted == count_rgb(img@, r, g, b),
        forall|i1: int, i2: int|
            0 <= i1 <= i2 < res@.len() ==> (#[trigger] res@[i1]).pixels_counted
                >= (#[trigger] res@[i2]).pixels_counted,
        forall|i: int, j: int|
            0 <= i < j < res@.len() ==> (#[trigger] res@[i]).color@ != (#[trigger] res@[j]).color@,
{
    let work = tally_colors(img);
    let sorted = sort_tallies(work, Ghost(img@));
    let n = sorted.len();
    let mut res: Vec<DominantColorEntry> = Vec::new();
    let mut t: usize = 0;
    while t < n
        invariant
            t <= n,
            n == sorted@.len(),
            res@.len() == t,
            tallies_ok(sorted@, img@),
            tallies_distinct(sorted@),
            forall|i1: int, i2: int|
                0 <= i1 <= i2 < sorted@.len() ==> (#[trigger] sorted@[i1]).3
                    >= (#[trigger] sorted@[i2]).3,
            forall|i: int|
                0 <= i < t ==> (#[trigger] res@[i]).color@ == spec_rgb_to_hex(
                    sorted@[i].0,
                    sorted@[i].1,
                    sorted@[i].2,
                ) && res@[i].pixels_counted == sorted@[i].3 && (match res@[i].color_name {
                    Some(n2) => color_name_of(sorted@[i].0, sorted@[i].1, sorted@[i].2) == Some(
                        n2@,
                    ),
                    None => color_name_of(sorted@[i].0, sorted@[i].1, sorted@[i].2) is None,
                }),
        decreases n - t,
    {
        let e = sorted[t];
        let arr: [u8; 3] = [e.0, e.1, e.2];
        let color = rgb_to_hex(&arr);
        let name = color_name_lookup(e.0, e.1, e.2);
        res.push(DominantColorEntry { color, color_name: name, pixels_counted: e.3 });
        t = t + 1;
    }
    proof {
        assert forall|i: int| 0 <= i < res@.len() implies entry_valid(
            #[trigger] res@[i],
            img@,
        ) by {
            assert(entry_describes(res@[i], img@, sorted@[i].0, sorted@[i].1, sorted@[i].2));
        }
        assert forall|r: u8, g: u8, b: u8|
            #[trigger] count_rgb(img@, r, g, b) >= 1 implies exists|i: int|
            0 <= i < res@.len() && (#[trigger] res@[i]).color@ == spec_rgb_to_hex(r, g, b)
                && res@[i].pixels_counted == count_rgb(img@, r, g, b) by {
            let i = choose|i: int|
                0 <= i < sorted@.len() && (#[trigger] sorted@[i]).0 == r && sorted@[i].1 == g
                    && sorted@[i].2 == b;
            assert(res@[i].color@ == spec_rgb_to_hex(r, g, b));
            assert(res@[i].pixels_counted == count_rgb(img@, r, g, b));
        }
        assert forall|i: int, j: int| 0 <= i < j < res@.len() implies (#[trigger] res@[i]).color@
            != (#[trigger] res@[j]).color@ by {
            if res@[i].color@ == res@[j].color@ {
                lemma_rgb_hex_injective(
                    sorted@[i].0,
                    sorted@[i].1,
                    sorted@[i].2,
                    sorted@[j].0,
                    sorted@[j].1,
                    sorted@[j].2,
                );
                assert(false);
            }
        }
    }
    res
}

} // verus!
