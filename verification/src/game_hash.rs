//! The digest of a game's state recorded on chain: header fields, the
//! players by id, the night's attacks and the votes by target, so that the
//! order the server happens to hold them in does not matter.

use vstd::prelude::*;
use vstd::string::StringSliceAdditionalSpecFns;
use crate::game::{Game, GamePhase, GameResult, TallyView, tally_index, tally_view};
use crate::player::Player;
use crate::sort::{
    as_ints, has_text, is_order, lemma_lex_asymmetric, lemma_lex_irreflexive, lemma_order_contents, lemma_sorted_unique,
    lex_lt, sorted_unique_strings, str_bytes, strings_strictly_sorted, text_order, text_sorted,
};
use crate::state_hash::{digest, hash_bytes, le32, le64};
use crate::support::extend_bytes;
use crate::voting::find_vote_index;
use crate::voting::lemma_tally_index;

verus! {

pub open spec fn phase_code(p: GamePhase) -> u8 {
    match p {
        GamePhase::Waiting => 0,
        GamePhase::Night => 1,
        GamePhase::DivinationProcessing => 2,
        GamePhase::Discussion => 3,
        GamePhase::Voting => 4,
        GamePhase::Result => 5,
        GamePhase::Finished => 6,
    }
}

pub open spec fn result_code(r: GameResult) -> u8 {
    match r {
        GameResult::InProgress => 0,
        GameResult::VillagerWin => 1,
        GameResult::WerewolfWin => 2,
    }
}

pub const ROOM_TAG: &'static str = "room:";
pub const PHASE_TAG: &'static str = "|phase:";
pub const DAY_TAG: &'static str = "|day:";
pub const RESULT_TAG: &'static str = "|result:";
pub const PLAYER_TAG: &'static str = "|player:";
pub const ATTACKS_TAG: &'static str = "|attacks:";
pub const VOTES_TAG: &'static str = "|votes:";

pub open spec fn utf8(s: Seq<char>) -> Seq<u8> {
    vstd::utf8::encode_utf8(s)
}

pub open spec fn flag_byte(b: bool) -> u8 {
    if b {
        1
    } else {
        0
    }
}

/// A player's part: tag, id, dead, ready.
pub open spec fn player_part(p: Player) -> Seq<u8> {
    PLAYER_TAG.spec_bytes() + utf8(p.id@) + seq![flag_byte(p.is_dead), flag_byte(p.is_ready)]
}

/// The players' parts in the order `ord` lists them.
pub open spec fn players_part(ps: Seq<Player>, ord: Seq<int>) -> Seq<u8>
    decreases ord.len(),
{
    if ord.len() == 0 {
        Seq::empty()
    } else {
        players_part(ps, ord.drop_last()) + player_part(ps[ord.last()])
    }
}

/// The texts' bytes, one after another.
pub open spec fn texts_bytes(ts: Seq<Seq<char>>) -> Seq<u8>
    decreases ts.len(),
{
    if ts.len() == 0 {
        Seq::empty()
    } else {
        texts_bytes(ts.drop_last()) + utf8(ts.last())
    }
}

/// The texts listed by `ord`, in that order.
pub open spec fn pick(ts: Seq<Seq<char>>, ord: Seq<int>) -> Seq<Seq<char>> {
    ord.map_values(|i: int| ts[i])
}

/// One vote's part: target, number of voters, voters in order `vord`.
pub open spec fn vote_part(target: Seq<char>, voters: Seq<Seq<char>>, vord: Seq<int>) -> Seq<u8> {
    utf8(target) + le64(voters.len() as u64) + texts_bytes(pick(voters, vord))
}

/// The votes' parts for `keys` in order, each with its voter order.
pub open spec fn votes_part(t: TallyView, keys: Seq<Seq<char>>, vords: Seq<Seq<int>>) -> Seq<u8>
    decreases keys.len(),
{
    if keys.len() == 0 {
        Seq::empty()
    } else {
        let i = keys.len() - 1;
        votes_part(t, keys.drop_last(), vords.take(i)) + vote_part(
            keys[i],
            t[tally_index(t, keys[i])].1,
            vords[i],
        )
    }
}

/// The bytes hashed for a game, with the players in order `pord`, the
/// vote targets `keys` and each target's voters in order `vords[i]`.
pub open spec fn state_input(g: Game, pord: Seq<int>, keys: Seq<Seq<char>>, vords: Seq<Seq<int>>) -> Seq<u8> {
    let attacks = g.night_actions.attacks@.map_values(|s: String| s@);
    ROOM_TAG.spec_bytes() + utf8(g.room_id@) + PHASE_TAG.spec_bytes() + seq![phase_code(g.phase)]
        + DAY_TAG.spec_bytes() + le32(g.day_count) + RESULT_TAG.spec_bytes() + seq![result_code(g.result)]
        + players_part(g.players@, pord) + ATTACKS_TAG.spec_bytes() + le64(attacks.len() as u64)
        + texts_bytes(attacks) + VOTES_TAG.spec_bytes() + le64(g.vote_results@.len() as u64)
        + votes_part(tally_view(g.vote_results@), keys, vords)
}

/// The orders are the ones the digest uses: players by id, targets once
/// each in byte order, each target's voters by id.
pub open spec fn canonical_orders(g: Game, pord: Seq<int>, keys: Seq<Seq<char>>, vords: Seq<Seq<int>>) -> bool {
    let t = tally_view(g.vote_results@);
    &&& is_order(pord, g.players@.len())
    &&& text_sorted(g.players@.map_values(|p: Player| utf8(p.id@)), pord)
    &&& (forall|a: int, b: int| 0 <= a < b < keys.len() ==> crate::sort::lex_lt(utf8(#[trigger] keys[a]), utf8(#[trigger] keys[b])))
    &&& (forall|x: Seq<char>| keys.contains(x) <==> exists|i: int| 0 <= i < t.len() && (#[trigger] t[i]).0 == x)
    &&& vords.len() == keys.len()
    &&& forall|i: int| 0 <= i < keys.len() ==> {
        let voters = t[tally_index(t, #[trigger] keys[i])].1;
        &&& is_order(vords[i], voters.len())
        &&& text_sorted(voters.map_values(|v: Seq<char>| utf8(v)), vords[i])
    }
}

proof fn lemma_order_bounds(ord: Seq<usize>, n: nat)
    requires
        is_order(as_ints(ord), n),
    ensures
        forall|k: int| 0 <= k < ord.len() ==> (#[trigger] ord[k]) < n,
{
    assert forall|k: int| 0 <= k < ord.len() implies (#[trigger] ord[k]) < n by {
        assert(as_ints(ord)[k] == ord[k] as int);
    }
}

fn push_le64(out: &mut Vec<u8>, x: u64)
    ensures
        final(out)@ == old(out)@ + le64(x),
{
    out.push((x & 0xff) as u8);
    out.push(((x >> 8) & 0xff) as u8);
    out.push(((x >> 16) & 0xff) as u8);
    out.push(((x >> 24) & 0xff) as u8);
    out.push(((x >> 32) & 0xff) as u8);
    out.push(((x >> 40) & 0xff) as u8);
    out.push(((x >> 48) & 0xff) as u8);
    out.push(((x >> 56) & 0xff) as u8);
    assert(out@ =~= old(out)@ + le64(x));
}

fn push_le32(out: &mut Vec<u8>, x: u32)
    ensures
        final(out)@ == old(out)@ + le32(x),
{
    out.push((x & 0xff) as u8);
    out.push(((x >> 8) & 0xff) as u8);
    out.push(((x >> 16) & 0xff) as u8);
    out.push(((x >> 24) & 0xff) as u8);
    assert(out@ =~= old(out)@ + le32(x));
}

/// Appends the texts of `v` listed by `ord`.
fn push_texts(out: &mut Vec<u8>, v: &Vec<String>, ord: &Vec<usize>)
    requires
        forall|k: int| 0 <= k < ord@.len() ==> (#[trigger] ord@[k]) < v@.len(),
    ensures
        final(out)@ == old(out)@ + texts_bytes(pick(v@.map_values(|s: String| s@), as_ints(ord@))),
{
    let ghost vs = v@.map_values(|s: String| s@);
    let n = ord.len();
    let mut k: usize = 0;
    while k < n
        invariant
            n == ord@.len(),
            k <= n,
            forall|q: int| 0 <= q < ord@.len() ==> (#[trigger] ord@[q]) < v@.len(),
            vs == v@.map_values(|s: String| s@),
            out@ == old(out)@ + texts_bytes(pick(vs, as_ints(ord@.take(k as int)))),
        decreases n - k,
    {
        let ghost before = out@;
        extend_bytes(out, v[ord[k]].as_str().as_bytes());
        proof {
            let p1 = pick(vs, as_ints(ord@.take(k + 1)));
            let p0 = pick(vs, as_ints(ord@.take(k as int)));
            assert(p1.drop_last() =~= p0);
            assert(p1.last() == vs[ord@[k as int] as int]);
            assert(out@ =~= old(out)@ + texts_bytes(p1));
        }
        k += 1;
    }
    assert(ord@.take(n as int) =~= ord@);
}

/// The digest of a game's state recorded on chain.
#[verifier::spinoff_prover]
#[verifier::rlimit(60)]
pub fn compute_game_state_hash(game: &Game) -> (h: [u8; 32])
    requires
        crate::game::targets_distinct(tally_view(game.vote_results@)),
    ensures
        exists|pord: Seq<int>, keys: Seq<Seq<char>>, vords: Seq<Seq<int>>|
            #![trigger canonical_orders(*game, pord, keys, vords)]
            canonical_orders(*game, pord, keys, vords) && h@ == digest(state_input(*game, pord, keys, vords)),
{
    let mut input: Vec<u8> = Vec::new();
    extend_bytes(&mut input, ROOM_TAG.as_bytes());
    extend_bytes(&mut input, game.room_id.as_str().as_bytes());
    extend_bytes(&mut input, PHASE_TAG.as_bytes());
    let pc: u8 = match game.phase {
        GamePhase::Waiting => 0,
        GamePhase::Night => 1,
        GamePhase::DivinationProcessing => 2,
        GamePhase::Discussion => 3,
        GamePhase::Voting => 4,
        GamePhase::Result => 5,
        GamePhase::Finished => 6,
    };
    input.push(pc);
    extend_bytes(&mut input, DAY_TAG.as_bytes());
    push_le32(&mut input, game.day_count);
    extend_bytes(&mut input, RESULT_TAG.as_bytes());
    let rc: u8 = match game.result {
        GameResult::InProgress => 0,
        GameResult::VillagerWin => 1,
        GameResult::WerewolfWin => 2,
    };
    input.push(rc);
    let ghost header = input@;
    // players, by id
    let mut ids: Vec<String> = Vec::new();
    let np = game.players.len();
    let mut i: usize = 0;
    while i < np
        invariant
            np == game.players@.len(),
            i <= np,
            ids@.len() == i,
            forall|k: int| 0 <= k < i ==> (#[trigger] ids@[k]) == game.players@[k].id,
        decreases np - i,
    {
        ids.push(game.players[i].id.clone());
        i += 1;
    }
    let pord = text_order(&ids);
    proof {
        assert(ids@.map_values(|s: String| str_bytes(s)) =~= game.players@.map_values(|p: Player| utf8(p.id@)));
        lemma_order_bounds(pord@, np as nat);
    }
    let mut k: usize = 0;
    while k < pord.len()
        invariant
            np == game.players@.len(),
            is_order(as_ints(pord@), np as nat),
            forall|z: int| 0 <= z < pord@.len() ==> (#[trigger] pord@[z]) < np,
            k <= pord@.len(),
            input@ == header + players_part(game.players@, as_ints(pord@).take(k as int)),
        decreases pord@.len() - k,
    {
        let p = &game.players[pord[k]];
        let ghost before = input@;
        extend_bytes(&mut input, PLAYER_TAG.as_bytes());
        extend_bytes(&mut input, p.id.as_str().as_bytes());
        input.push(if p.is_dead { 1 } else { 0 });
        input.push(if p.is_ready { 1 } else { 0 });
        proof {
            let o = as_ints(pord@);
            assert(o.take(k + 1).drop_last() =~= o.take(k as int));
            assert(o.take(k + 1).last() == pord@[k as int] as int);
            assert(input@ =~= before + player_part(game.players@[pord@[k as int] as int]));
        }
        k += 1;
    }
    proof {
        assert(as_ints(pord@).take(pord@.len() as int) =~= as_ints(pord@));
    }
    let ghost after_players = input@;
    // attacks, in order
    extend_bytes(&mut input, ATTACKS_TAG.as_bytes());
    push_le64(&mut input, game.night_actions.attacks.len() as u64);
    let na = game.night_actions.attacks.len();
    let mut identity: Vec<usize> = Vec::new();
    let mut j: usize = 0;
    while j < na
        invariant
            na == game.night_actions.attacks@.len(),
            j <= na,
            identity@.len() == j,
            forall|q: int| 0 <= q < j ==> (#[trigger] identity@[q]) == q,
        decreases na - j,
    {
        identity.push(j);
        j += 1;
    }
    let ghost attacks = game.night_actions.attacks@.map_values(|s: String| s@);
    push_texts(&mut input, &game.night_actions.attacks, &identity);
    proof {
        assert(pick(attacks, as_ints(identity@)) =~= attacks);
    }
    // votes, by target
    extend_bytes(&mut input, VOTES_TAG.as_bytes());
    push_le64(&mut input, game.vote_results.len() as u64);
    let ghost before_votes = input@;
    let ghost t = tally_view(game.vote_results@);
    let mut targets: Vec<String> = Vec::new();
    let nv = game.vote_results.len();
    let mut q: usize = 0;
    while q < nv
        invariant
            nv == game.vote_results@.len(),
            q <= nv,
            targets@.len() == q,
            forall|m: int| 0 <= m < q ==> (#[trigger] targets@[m]) == game.vote_results@[m].target_id,
        decreases nv - q,
    {
        targets.push(game.vote_results[q].target_id.clone());
        q += 1;
    }
    let keys = sorted_unique_strings(&targets);
    let ghost key_texts = keys@.map_values(|s: String| s@);
    let ghost mut vords: Seq<Seq<int>> = Seq::empty();
    let nk = keys.len();
    let mut m: usize = 0;
    while m < nk
        invariant
            nk == keys@.len(),
            m <= nk,
            t == tally_view(game.vote_results@),
            key_texts == keys@.map_values(|s: String| s@),
            forall|x: Seq<char>| has_text(keys@, x) <==> has_text(targets@, x),
            forall|z: int| 0 <= z < targets@.len() ==> (#[trigger] targets@[z]) == game.vote_results@[z].target_id,
            targets@.len() == game.vote_results@.len(),
            vords.len() == m,
            forall|z: int| 0 <= z < m ==> {
                let voters = t[tally_index(t, #[trigger] key_texts[z])].1;
                &&& tally_index(t, key_texts[z]) >= 0
                &&& is_order(vords[z], voters.len())
                &&& text_sorted(voters.map_values(|v: Seq<char>| utf8(v)), vords[z])
            },
            input@ == before_votes + votes_part(t, key_texts.take(m as int), vords),
        decreases nk - m,
    {
        let key = &keys[m];
        proof {
            lemma_tally_index(t, key@);
            assert(has_text(keys@, key@));
            assert(has_text(targets@, key@));
            let z = choose|z: int| 0 <= z < targets@.len() && (#[trigger] targets@[z])@ == key@;
            assert(t[z].0 == key@);
        }
        let vi = match find_vote_index(&game.vote_results, key.as_str()) {
            Some(vi) => vi,
            None => {
                proof {
                    let z = choose|z: int| 0 <= z < targets@.len() && (#[trigger] targets@[z])@ == key@;
                    assert(t[z].0 == key@);
                }
                0
            },
        };
        let voters = &game.vote_results[vi].voters;
        let vord = text_order(voters);
        proof {
            lemma_order_bounds(vord@, voters@.len());
        }
        let ghost before = input@;
        extend_bytes(&mut input, key.as_str().as_bytes());
        push_le64(&mut input, voters.len() as u64);
        push_texts(&mut input, voters, &vord);
        proof {
            let vs = voters@.map_values(|s: String| s@);
            assert(t[vi as int].1 == vs);
            assert(vs.map_values(|v: Seq<char>| utf8(v)) =~= voters@.map_values(|s: String| str_bytes(s)));
            let old_vords = vords;
            vords = vords.push(as_ints(vord@));
            assert(key_texts.take(m + 1).drop_last() =~= key_texts.take(m as int));
            assert(vords.take(m as int) =~= old_vords);
            assert(key_texts.take(m + 1)[m as int] == key@);
            assert(input@ =~= before + vote_part(key@, vs, as_ints(vord@)));
        }
        m += 1;
    }
    proof {
        assert(key_texts.take(nk as int) =~= key_texts);
        let pord_i = as_ints(pord@);
        assert forall|a: int, b: int| 0 <= a < b < key_texts.len() implies crate::sort::lex_lt(
            utf8(#[trigger] key_texts[a]),
            utf8(#[trigger] key_texts[b]),
        ) by {
            assert(key_texts[a] == keys@[a]@ && key_texts[b] == keys@[b]@);
        }
        assert forall|x: Seq<char>| key_texts.contains(x) <==> exists|i: int| 0 <= i < t.len() && (#[trigger] t[i]).0 == x by {
            if key_texts.contains(x) {
                let i = choose|i: int| 0 <= i < key_texts.len() && key_texts[i] == x;
                assert(has_text(keys@, keys@[i]@));
                assert(has_text(targets@, x));
                let z = choose|z: int| 0 <= z < targets@.len() && (#[trigger] targets@[z])@ == x;
                assert(t[z].0 == x);
            }
            if exists|i: int| 0 <= i < t.len() && (#[trigger] t[i]).0 == x {
                let i = choose|i: int| 0 <= i < t.len() && (#[trigger] t[i]).0 == x;
                assert(targets@[i]@ == x);
                assert(has_text(targets@, x));
                assert(has_text(keys@, x));
                let w = choose|w: int| 0 <= w < keys@.len() && (#[trigger] keys@[w])@ == x;
                assert(key_texts[w] == x);
            }
        }
        assert(canonical_orders(*game, pord_i, key_texts, vords));
        assert(input@ =~= state_input(*game, pord_i, key_texts, vords));
    }
    hash_bytes(input.as_slice())
}

/// The players' ids are distinct.
pub open spec fn ids_distinct(ps: Seq<Player>) -> bool {
    forall|i: int, j: int| 0 <= i < j < ps.len() ==> (#[trigger] ps[i]).id@ != (#[trigger] ps[j]).id@
}

proof fn lemma_utf8_injective(a: Seq<char>, b: Seq<char>)
    ensures
        utf8(a) == utf8(b) ==> a == b,
{
    vstd::utf8::encode_utf8_decode_utf8(a);
    vstd::utf8::encode_utf8_decode_utf8(b);
}

/// Orders that pick equal players position by position give equal parts.
proof fn lemma_players_part_same(ps1: Seq<Player>, o1: Seq<int>, ps2: Seq<Player>, o2: Seq<int>)
    requires
        o1.len() == o2.len(),
        forall|k: int| 0 <= k < o1.len() ==> ps1[#[trigger] o1[k]] == ps2[o2[k]],
    ensures
        players_part(ps1, o1) == players_part(ps2, o2),
    decreases o1.len(),
{
    if o1.len() > 0 {
        let a = o1.drop_last();
        let b = o2.drop_last();
        assert forall|k: int| 0 <= k < a.len() implies ps1[#[trigger] a[k]] == ps2[b[k]] by {
            assert(a[k] == o1[k]);
            assert(ps1[o1[k]] == ps2[o2[k]]);
        }
        lemma_players_part_same(ps1, a, ps2, b);
        assert(ps1[o1[o1.len() - 1]] == ps2[o2[o1.len() - 1]]);
    }
}

/// A strictly ascending list of texts has no repeats.
proof fn lemma_strict_no_duplicates(keys: Seq<Seq<char>>)
    requires
        forall|a: int, b: int| 0 <= a < b < keys.len() ==> lex_lt(utf8(#[trigger] keys[a]), utf8(#[trigger] keys[b])),
    ensures
        keys.no_duplicates(),
{
    assert forall|i: int, j: int| 0 <= i < keys.len() && 0 <= j < keys.len() && i != j implies keys[i] != keys[j] by {
        if keys[i] == keys[j] {
            lemma_lex_irreflexive(utf8(keys[i]));
            if i < j {
                assert(lex_lt(utf8(keys[i]), utf8(keys[j])));
            } else {
                assert(lex_lt(utf8(keys[j]), utf8(keys[i])));
            }
        }
    }
}

/// The digest input of a game does not depend on the order in which the
/// game holds its players, as long as their ids are distinct: a game and the
/// same game with its players permuted have the same input under any orders
/// that the digest may use for each.
pub proof fn lemma_state_input_ignores_player_order(
    g1: Game,
    g2: Game,
    perm: Seq<int>,
    pord1: Seq<int>,
    keys1: Seq<Seq<char>>,
    vords1: Seq<Seq<int>>,
    pord2: Seq<int>,
    keys2: Seq<Seq<char>>,
    vords2: Seq<Seq<int>>,
)
    requires
        g2 == (Game { players: g2.players, ..g1 }),
        is_order(perm, g1.players@.len()),
        g2.players@.len() == g1.players@.len(),
        forall|k: int| 0 <= k < perm.len() ==> g2.players@[k] == g1.players@[#[trigger] perm[k]],
        ids_distinct(g1.players@),
        canonical_orders(g1, pord1, keys1, vords1),
        canonical_orders(g2, pord2, keys2, vords2),
    ensures
        state_input(g1, pord1, keys1, vords1) == state_input(g2, pord2, keys2, vords2),
{
    let n = g1.players@.len();
    let ps1 = g1.players@;
    let ps2 = g2.players@;
    let s1 = ps1.map_values(|p: Player| utf8(p.id@));
    let s2 = ps2.map_values(|p: Player| utf8(p.id@));
    // the order that the second game's order means for the first game's players
    let q = pord2.map_values(|i: int| perm[i]);
    assert(is_order(q, n)) by {
        assert forall|k: int| 0 <= k < q.len() implies 0 <= #[trigger] q[k] < n by {
            assert(0 <= pord2[k] < n);
        }
        assert forall|a: int, b: int| 0 <= a < b < q.len() implies #[trigger] q[a] != #[trigger] q[b] by {
            assert(pord2[a] != pord2[b]);
            if pord2[a] < pord2[b] {
                assert(perm[pord2[a]] != perm[pord2[b]]);
            } else {
                assert(perm[pord2[b]] != perm[pord2[a]]);
            }
        }
    }
    let lt = |x: int, y: int| lex_lt(s1[x], s1[y]);
    assert forall|x: int, y: int| #[trigger] lt(x, y) implies !lt(y, x) by {
        lemma_lex_asymmetric(s1[x], s1[y]);
    }
    // different players have different id bytes
    assert forall|x: int, y: int| 0 <= x < n && 0 <= y < n && x != y implies s1[x] != s1[y] by {
        lemma_utf8_injective(ps1[x].id@, ps1[y].id@);
        if x < y {
            assert(ps1[x].id@ != ps1[y].id@);
        } else {
            assert(ps1[y].id@ != ps1[x].id@);
        }
    }
    assert forall|a: int, b: int| 0 <= a < b < pord1.len() implies lt(#[trigger] pord1[a], #[trigger] pord1[b]) by {
        assert(pord1[a] != pord1[b]);
    }
    assert forall|a: int, b: int| 0 <= a < b < q.len() implies lt(#[trigger] q[a], #[trigger] q[b]) by {
        assert(pord2[a] != pord2[b]);
        assert(q[a] != q[b]);
        assert(s2[pord2[a]] == s1[q[a]]);
        assert(s2[pord2[b]] == s1[q[b]]);
    }
    lemma_order_contents(pord1, n);
    lemma_order_contents(q, n);
    lemma_sorted_unique(pord1, q, lt);
    assert forall|k: int| 0 <= k < pord1.len() implies ps1[#[trigger] pord1[k]] == ps2[pord2[k]] by {
        assert(q[k] == perm[pord2[k]]);
    }
    lemma_players_part_same(ps1, pord1, ps2, pord2);
    // the vote targets, in the same strict order
    let t = tally_view(g1.vote_results@);
    assert(tally_view(g2.vote_results@) == t);
    assert forall|x: Seq<char>| keys1.contains(x) <==> keys2.contains(x) by {}
    lemma_strict_no_duplicates(keys1);
    lemma_strict_no_duplicates(keys2);
    keys1.unique_seq_to_set();
    keys2.unique_seq_to_set();
    assert(keys1.to_set() =~= keys2.to_set());
    let klt = |x: Seq<char>, y: Seq<char>| lex_lt(utf8(x), utf8(y));
    assert forall|x: Seq<char>, y: Seq<char>| #[trigger] klt(x, y) implies !klt(y, x) by {
        lemma_lex_asymmetric(utf8(x), utf8(y));
    }
    assert forall|a: int, b: int| 0 <= a < b < keys1.len() implies klt(#[trigger] keys1[a], #[trigger] keys1[b]) by {}
    assert forall|a: int, b: int| 0 <= a < b < keys2.len() implies klt(#[trigger] keys2[a], #[trigger] keys2[b]) by {}
    lemma_sorted_unique(keys1, keys2, klt);
    // each target's voters, in the same stable order
    assert forall|i: int| 0 <= i < vords1.len() implies #[trigger] vords1[i] == vords2[i] by {
        let voters = t[tally_index(t, keys1[i])].1;
        let v = voters.map_values(|x: Seq<char>| utf8(x));
        let vlt = |x: int, y: int| lex_lt(v[x], v[y]) || (v[x] == v[y] && x < y);
        assert forall|x: int, y: int| #[trigger] vlt(x, y) implies !vlt(y, x) by {
            if lex_lt(v[x], v[y]) {
                lemma_lex_asymmetric(v[x], v[y]);
            }
            lemma_lex_irreflexive(v[x]);
            lemma_lex_irreflexive(v[y]);
        }
        assert(keys2[i] == keys1[i]);
        assert forall|a: int, b: int| 0 <= a < b < vords1[i].len() implies vlt(#[trigger] vords1[i][a], #[trigger] vords1[i][b]) by {}
        assert forall|a: int, b: int| 0 <= a < b < vords2[i].len() implies vlt(#[trigger] vords2[i][a], #[trigger] vords2[i][b]) by {}
        lemma_order_contents(vords1[i], voters.len());
        lemma_order_contents(vords2[i], voters.len());
        lemma_sorted_unique(vords1[i], vords2[i], vlt);
    }
    assert(vords1 =~= vords2);
}

/// Two digests that `compute_game_state_hash` gave for a game and for the
/// same game with its players permuted (ids distinct) are equal.
pub proof fn lemma_digest_ignores_player_order(g1: Game, g2: Game, perm: Seq<int>, h1: Seq<u8>, h2: Seq<u8>)
    requires
        g2 == (Game { players: g2.players, ..g1 }),
        is_order(perm, g1.players@.len()),
        g2.players@.len() == g1.players@.len(),
        forall|k: int| 0 <= k < perm.len() ==> g2.players@[k] == g1.players@[#[trigger] perm[k]],
        ids_distinct(g1.players@),
        exists|pord: Seq<int>, keys: Seq<Seq<char>>, vords: Seq<Seq<int>>|
            #![trigger canonical_orders(g1, pord, keys, vords)]
            canonical_orders(g1, pord, keys, vords) && h1 == digest(state_input(g1, pord, keys, vords)),
        exists|pord: Seq<int>, keys: Seq<Seq<char>>, vords: Seq<Seq<int>>|
            #![trigger canonical_orders(g2, pord, keys, vords)]
            canonical_orders(g2, pord, keys, vords) && h2 == digest(state_input(g2, pord, keys, vords)),
    ensures
        h1 == h2,
{
    let (p1, k1, v1) = choose|pord: Seq<int>, keys: Seq<Seq<char>>, vords: Seq<Seq<int>>|
        #![trigger canonical_orders(g1, pord, keys, vords)]
        canonical_orders(g1, pord, keys, vords) && h1 == digest(state_input(g1, pord, keys, vords));
    let (p2, k2, v2) = choose|pord: Seq<int>, keys: Seq<Seq<char>>, vords: Seq<Seq<int>>|
        #![trigger canonical_orders(g2, pord, keys, vords)]
        canonical_orders(g2, pord, keys, vords) && h2 == digest(state_input(g2, pord, keys, vords));
    lemma_state_input_ignores_player_order(g1, g2, perm, p1, k1, v1, p2, k2, v2);
}

/// The voters of `target` in the tally (the first entry for it).
pub open spec fn voters_of(t: TallyView, target: Seq<char>) -> Seq<Seq<char>> {
    t[tally_index(t, target)].1
}

/// Some entry of the tally is for `target`.
pub open spec fn has_target(t: TallyView, target: Seq<char>) -> bool {
    exists|i: int| 0 <= i < t.len() && (#[trigger] t[i]).0 == target
}

/// The votes' parts agree when each key's part does.
proof fn lemma_votes_part_same(
    t1: TallyView,
    t2: TallyView,
    keys: Seq<Seq<char>>,
    vords1: Seq<Seq<int>>,
    vords2: Seq<Seq<int>>,
)
    requires
        vords1.len() == keys.len(),
        vords2.len() == keys.len(),
        forall|i: int|
            0 <= i < keys.len() ==> vote_part(#[trigger] keys[i], voters_of(t1, keys[i]), vords1[i]) == vote_part(
                keys[i],
                voters_of(t2, keys[i]),
                vords2[i],
            ),
    ensures
        votes_part(t1, keys, vords1) == votes_part(t2, keys, vords2),
    decreases keys.len(),
{
    if keys.len() > 0 {
        let n = keys.len() - 1;
        let k = keys.drop_last();
        assert forall|i: int| 0 <= i < k.len() implies vote_part(#[trigger] k[i], voters_of(t1, k[i]), vords1.take(n)[i])
            == vote_part(k[i], voters_of(t2, k[i]), vords2.take(n)[i]) by {
            assert(k[i] == keys[i]);
        }
        lemma_votes_part_same(t1, t2, k, vords1.take(n), vords2.take(n));
        assert(vote_part(keys[n], voters_of(t1, keys[n]), vords1[n]) == vote_part(
            keys[n],
            voters_of(t2, keys[n]),
            vords2[n],
        ));
    }
}

/// Texts ordered by their UTF-8 bytes (equal texts tie).
pub open spec fn text_leq(x: Seq<char>, y: Seq<char>) -> bool {
    lex_lt(utf8(x), utf8(y)) || x == y
}

proof fn lemma_text_leq_total()
    ensures
        vstd::relations::total_ordering(|x: Seq<char>, y: Seq<char>| text_leq(x, y)),
{
    let leq = |x: Seq<char>, y: Seq<char>| text_leq(x, y);
    assert forall|x: Seq<char>, y: Seq<char>| #[trigger] leq(x, y) && #[trigger] leq(y, x) implies x == y by {
        if x != y {
            lemma_lex_asymmetric(utf8(x), utf8(y));
        }
    }
    assert forall|x: Seq<char>, y: Seq<char>, z: Seq<char>| #[trigger] leq(x, y) && #[trigger] leq(y, z) implies leq(
        x,
        z,
    ) by {
        if x != y && y != z {
            crate::sort::lemma_lex_transitive(utf8(x), utf8(y), utf8(z));
        }
    }
    assert forall|x: Seq<char>, y: Seq<char>| #[trigger] leq(x, y) || #[trigger] leq(y, x) by {
        crate::sort::lemma_lex_total(utf8(x), utf8(y));
        lemma_utf8_injective(x, y);
    }
    assert forall|x: Seq<char>| #[trigger] leq(x, x) by {}
}

/// Picking the texts in any order keeps which texts there are, and how
/// often.
proof fn lemma_pick_multiset(v: Seq<Seq<char>>, o: Seq<int>)
    requires
        is_order(o, v.len()),
    ensures
        pick(v, o).to_multiset() =~= v.to_multiset(),
    decreases v.len(),
{
    broadcast use vstd::seq_lib::group_to_multiset_ensures;
    if v.len() > 0 {
        let n = v.len();
        crate::sort::lemma_order_onto(o, n, n - 1);
        let j = choose|k: int| 0 <= k < o.len() && o[k] == n - 1;
        let o2 = o.remove(j);
        let v2 = v.drop_last();
        assert(is_order(o2, v2.len())) by {
            assert forall|k: int| 0 <= k < o2.len() implies 0 <= #[trigger] o2[k] < v2.len() by {
                if k < j {
                    assert(o2[k] == o[k] && o[k] != o[j]);
                } else {
                    assert(o2[k] == o[k + 1] && o[k + 1] != o[j]);
                }
            }
            assert forall|a: int, b: int| 0 <= a < b < o2.len() implies #[trigger] o2[a] != #[trigger] o2[b] by {
                let a1 = if a < j { a } else { a + 1 };
                let b1 = if b < j { b } else { b + 1 };
                assert(o2[a] == o[a1] && o2[b] == o[b1]);
            }
        }
        lemma_pick_multiset(v2, o2);
        assert(pick(v, o2) =~= pick(v2, o2)) by {
            assert forall|k: int| 0 <= k < o2.len() implies pick(v, o2)[k] == pick(v2, o2)[k] by {
                assert(0 <= o2[k] < v2.len());
            }
        }
        assert(pick(v, o) =~= pick(v, o2).insert(j, v[n - 1]));
        assert(v =~= v2.push(v[n - 1]));
    }
}

/// Picked in a stable byte order, the same texts in any two orders come out
/// the same.
proof fn lemma_sorted_picks_agree(v1: Seq<Seq<char>>, o1: Seq<int>, v2: Seq<Seq<char>>, o2: Seq<int>)
    requires
        v1.to_multiset() == v2.to_multiset(),
        is_order(o1, v1.len()),
        is_order(o2, v2.len()),
        text_sorted(v1.map_values(|x: Seq<char>| utf8(x)), o1),
        text_sorted(v2.map_values(|x: Seq<char>| utf8(x)), o2),
    ensures
        pick(v1, o1) == pick(v2, o2),
{
    let leq = |x: Seq<char>, y: Seq<char>| text_leq(x, y);
    lemma_text_leq_total();
    lemma_pick_multiset(v1, o1);
    lemma_pick_multiset(v2, o2);
    let p1 = pick(v1, o1);
    let p2 = pick(v2, o2);
    assert forall|a: int, b: int| 0 <= a < b < p1.len() implies #[trigger] leq(p1[a], p1[b]) by {
        assert(0 <= o1[a] < v1.len() && 0 <= o1[b] < v1.len());
        lemma_utf8_injective(v1[o1[a]], v1[o1[b]]);
    }
    assert forall|a: int, b: int| 0 <= a < b < p2.len() implies #[trigger] leq(p2[a], p2[b]) by {
        assert(0 <= o2[a] < v2.len() && 0 <= o2[b] < v2.len());
        lemma_utf8_injective(v2[o2[a]], v2[o2[b]]);
    }
    vstd::seq_lib::lemma_sorted_unique(p1, p2, leq);
}

/// The digest input of a game does not depend on the order in which the
/// game holds its votes: a game and the same game whose tally lists the
/// same targets (in any order), each with the same voters in any order
/// (repeats included), have the same input under any orders the digest may
/// use for each.
pub proof fn lemma_state_input_ignores_vote_order(
    g1: Game,
    g2: Game,
    pord1: Seq<int>,
    keys1: Seq<Seq<char>>,
    vords1: Seq<Seq<int>>,
    pord2: Seq<int>,
    keys2: Seq<Seq<char>>,
    vords2: Seq<Seq<int>>,
)
    requires
        g2 == (Game { vote_results: g2.vote_results, ..g1 }),
        g2.vote_results@.len() == g1.vote_results@.len(),
        forall|x: Seq<char>|
            has_target(tally_view(g1.vote_results@), x) <==> has_target(tally_view(g2.vote_results@), x),
        forall|x: Seq<char>|
            #[trigger] has_target(tally_view(g1.vote_results@), x) ==> voters_of(
                tally_view(g1.vote_results@),
                x,
            ).to_multiset() == voters_of(tally_view(g2.vote_results@), x).to_multiset(),
        canonical_orders(g1, pord1, keys1, vords1),
        canonical_orders(g2, pord2, keys2, vords2),
    ensures
        state_input(g1, pord1, keys1, vords1) == state_input(g2, pord2, keys2, vords2),
{
    broadcast use vstd::seq_lib::group_to_multiset_ensures;
    let t1 = tally_view(g1.vote_results@);
    let t2 = tally_view(g2.vote_results@);
    // the players, in the same stable order
    let ps = g1.players@;
    let s = ps.map_values(|p: Player| utf8(p.id@));
    let plt = |x: int, y: int| lex_lt(s[x], s[y]) || (s[x] == s[y] && x < y);
    assert forall|x: int, y: int| #[trigger] plt(x, y) implies !plt(y, x) by {
        if lex_lt(s[x], s[y]) {
            lemma_lex_asymmetric(s[x], s[y]);
        }
        lemma_lex_irreflexive(s[x]);
        lemma_lex_irreflexive(s[y]);
    }
    assert forall|a: int, b: int| 0 <= a < b < pord1.len() implies plt(#[trigger] pord1[a], #[trigger] pord1[b]) by {}
    assert forall|a: int, b: int| 0 <= a < b < pord2.len() implies plt(#[trigger] pord2[a], #[trigger] pord2[b]) by {}
    lemma_order_contents(pord1, ps.len());
    lemma_order_contents(pord2, ps.len());
    lemma_sorted_unique(pord1, pord2, plt);
    // the vote targets, in the same strict order
    assert forall|x: Seq<char>| keys1.contains(x) <==> keys2.contains(x) by {
        if keys1.contains(x) {
            assert(has_target(t1, x));
        }
        if keys2.contains(x) {
            assert(has_target(t2, x));
        }
    }
    lemma_strict_no_duplicates(keys1);
    lemma_strict_no_duplicates(keys2);
    let klt = |x: Seq<char>, y: Seq<char>| lex_lt(utf8(x), utf8(y));
    assert forall|x: Seq<char>, y: Seq<char>| #[trigger] klt(x, y) implies !klt(y, x) by {
        lemma_lex_asymmetric(utf8(x), utf8(y));
    }
    assert forall|a: int, b: int| 0 <= a < b < keys1.len() implies klt(#[trigger] keys1[a], #[trigger] keys1[b]) by {}
    assert forall|a: int, b: int| 0 <= a < b < keys2.len() implies klt(#[trigger] keys2[a], #[trigger] keys2[b]) by {}
    assert(keys1.len() == keys2.len()) by {
        keys1.unique_seq_to_set();
        keys2.unique_seq_to_set();
        assert(keys1.to_set() =~= keys2.to_set());
    }
    lemma_sorted_unique(keys1, keys2, klt);
    let keys = keys1;
    // each target's voters, picked in the same order
    assert forall|i: int| 0 <= i < keys.len() implies vote_part(#[trigger] keys[i], voters_of(t1, keys[i]), vords1[i])
        == vote_part(keys[i], voters_of(t2, keys[i]), vords2[i]) by {
        let x = keys[i];
        assert(keys.contains(x));
        assert(has_target(t1, x));
        assert(keys2[i] == x);
        let v1 = voters_of(t1, x);
        let v2 = voters_of(t2, x);
        assert(v1.len() == v1.to_multiset().len());
        assert(v2.len() == v2.to_multiset().len());
        lemma_sorted_picks_agree(v1, vords1[i], v2, vords2[i]);
    }
    lemma_votes_part_same(t1, t2, keys, vords1, vords2);
    assert(vords1.len() == vords2.len());
}

/// The digest input of a game does not depend on the order in which it
/// holds its players (ids distinct) nor its votes (targets in any order,
/// each target's voters in any order, repeats included): both changes at
/// once leave it as it was.
pub proof fn lemma_state_input_ignores_order(
    g1: Game,
    g2: Game,
    perm: Seq<int>,
    pord1: Seq<int>,
    keys1: Seq<Seq<char>>,
    vords1: Seq<Seq<int>>,
    pord2: Seq<int>,
    keys2: Seq<Seq<char>>,
    vords2: Seq<Seq<int>>,
)
    requires
        g2 == (Game { players: g2.players, vote_results: g2.vote_results, ..g1 }),
        is_order(perm, g1.players@.len()),
        g2.players@.len() == g1.players@.len(),
        forall|k: int| 0 <= k < perm.len() ==> g2.players@[k] == g1.players@[#[trigger] perm[k]],
        ids_distinct(g1.players@),
        g2.vote_results@.len() == g1.vote_results@.len(),
        forall|x: Seq<char>|
            has_target(tally_view(g1.vote_results@), x) <==> has_target(tally_view(g2.vote_results@), x),
        forall|x: Seq<char>|
            #[trigger] has_target(tally_view(g1.vote_results@), x) ==> voters_of(
                tally_view(g1.vote_results@),
                x,
            ).to_multiset() == voters_of(tally_view(g2.vote_results@), x).to_multiset(),
        canonical_orders(g1, pord1, keys1, vords1),
        canonical_orders(g2, pord2, keys2, vords2),
    ensures
        state_input(g1, pord1, keys1, vords1) == state_input(g2, pord2, keys2, vords2),
{
    let gm = Game { players: g2.players, ..g1 };
    assert(gm.players@ == g2.players@);
    assert(tally_view(gm.vote_results@) == tally_view(g1.vote_results@));
    assert(gm.players@.map_values(|p: Player| utf8(p.id@)) == g2.players@.map_values(|p: Player| utf8(p.id@)));
    assert(canonical_orders(gm, pord2, keys1, vords1));
    lemma_state_input_ignores_player_order(g1, gm, perm, pord1, keys1, vords1, pord2, keys1, vords1);
    lemma_state_input_ignores_vote_order(gm, g2, pord2, keys1, vords1, pord2, keys2, vords2);
}

/// Two digests that `compute_game_state_hash` gave for a game and for the
/// same game with its players (ids distinct) and its votes (targets, and
/// each target's voters, repeats included) held in other orders are equal.
pub proof fn lemma_digest_ignores_order(g1: Game, g2: Game, perm: Seq<int>, h1: Seq<u8>, h2: Seq<u8>)
    requires
        g2 == (Game { players: g2.players, vote_results: g2.vote_results, ..g1 }),
        is_order(perm, g1.players@.len()),
        g2.players@.len() == g1.players@.len(),
        forall|k: int| 0 <= k < perm.len() ==> g2.players@[k] == g1.players@[#[trigger] perm[k]],
        ids_distinct(g1.players@),
        g2.vote_results@.len() == g1.vote_results@.len(),
        forall|x: Seq<char>|
            has_target(tally_view(g1.vote_results@), x) <==> has_target(tally_view(g2.vote_results@), x),
        forall|x: Seq<char>|
            #[trigger] has_target(tally_view(g1.vote_results@), x) ==> voters_of(
                tally_view(g1.vote_results@),
                x,
            ).to_multiset() == voters_of(tally_view(g2.vote_results@), x).to_multiset(),
        exists|pord: Seq<int>, keys: Seq<Seq<char>>, vords: Seq<Seq<int>>|
            #![trigger canonical_orders(g1, pord, keys, vords)]
            canonical_orders(g1, pord, keys, vords) && h1 == digest(state_input(g1, pord, keys, vords)),
        exists|pord: Seq<int>, keys: Seq<Seq<char>>, vords: Seq<Seq<int>>|
            #![trigger canonical_orders(g2, pord, keys, vords)]
            canonical_orders(g2, pord, keys, vords) && h2 == digest(state_input(g2, pord, keys, vords)),
    ensures
        h1 == h2,
{
    let (p1, k1, v1) = choose|pord: Seq<int>, keys: Seq<Seq<char>>, vords: Seq<Seq<int>>|
        #![trigger canonical_orders(g1, pord, keys, vords)]
        canonical_orders(g1, pord, keys, vords) && h1 == digest(state_input(g1, pord, keys, vords));
    let (p2, k2, v2) = choose|pord: Seq<int>, keys: Seq<Seq<char>>, vords: Seq<Seq<int>>|
        #![trigger canonical_orders(g2, pord, keys, vords)]
        canonical_orders(g2, pord, keys, vords) && h2 == digest(state_input(g2, pord, keys, vords));
    lemma_state_input_ignores_order(g1, g2, perm, p1, k1, v1, p2, k2, v2);
}

} // verus!
