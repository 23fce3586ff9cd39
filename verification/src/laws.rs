//! The laws of the translation pipeline: what holds of every program,
//! proved once and for all over the specification functions that the
//! executable functions are verified against.

use crate::code::{
    bin_of_words, bintext_of_words, lemma_bin_inverse, lemma_bintext_inverse, words_of_bin,
    words_of_bintext, DisErr,
};
use crate::inst::{inst_word, lemma_word_inverse, lemma_word_layout};
use crate::loc::Loc;
use crate::prog::{
    item_of_word, item_resolved, items_of_words, resolve_words, step_word, GAddr, GItem,
};
use crate::sym::{predefined_addr, SymInfo};
use vstd::prelude::*;

verus! {

/// Rendering a word sequence as binary and reading it back changes no
/// word, so its bintext comes out the same as the directly written
/// bintext.
pub proof fn lemma_bintext_of_binary(ws: Seq<u16>)
    ensures
        words_of_bin(bin_of_words(ws)) matches Ok(ws2) && bintext_of_words(ws2)
            == bintext_of_words(ws),
{
    lemma_bin_inverse(ws);
}

/// Rendering a word sequence as bintext and reading it back changes no
/// word, so its binary comes out the same as the directly written
/// binary.
pub proof fn lemma_binary_of_bintext(ws: Seq<u16>)
    ensures
        words_of_bintext(bintext_of_words(ws), 1) matches Ok(ws2) && bin_of_words(ws2)
            == bin_of_words(ws),
{
    lemma_bintext_inverse(ws, 1);
}

/// A word above the A-instruction space with its top three bits set.
proof fn lemma_c_word_tag(w: u16)
    requires
        w >= 0xE000,
    ensures
        w >> 13u16 == 0b111,
{
    assert(w >= 0xE000 ==> w >> 13u16 == 0b111) by (bit_vector);
}

/// Round trip of a fully resolved program: encoding touches neither
/// the symbol table nor the variable counter, and decoding the encoded
/// words gives back exactly the same items — so its canonical source
/// equals the canonical source of the original program, whether the
/// words travel as binary or as bintext.
pub proof fn lemma_assemble_disassemble(items: Seq<GItem>, st: Map<Seq<u8>, SymInfo>, next: u16)
    requires
        forall|i: int| 0 <= i < items.len() ==> item_resolved(#[trigger] items[i]),
    ensures
        resolve_words(items, st, next) matches Ok((ws, st2, n2)) && st2 == st && n2 == next
            && items_of_words(ws) == Ok::<Seq<GItem>, DisErr>(items) && words_of_bin(
            bin_of_words(ws),
        ) == Ok::<Seq<u16>, DisErr>(ws) && words_of_bintext(bintext_of_words(ws), 1) == Ok::<
            Seq<u16>,
            DisErr,
        >(ws),
    decreases items.len(),
{
    if items.len() == 0 {
        assert(items =~= Seq::<GItem>::empty());
        let r = resolve_words(items, st, next);
        match r {
            Ok((ws, _, _)) => {
                lemma_bin_inverse(ws);
                lemma_bintext_inverse(ws, 1);
            },
            Err(_) => {},
        }
    } else {
        let tail = items.subrange(1, items.len() as int);
        assert(item_resolved(items[0]));
        assert forall|i: int| 0 <= i < tail.len() implies item_resolved(#[trigger] tail[i]) by {
            assert(tail[i] == items[i + 1]);
        }
        lemma_assemble_disassemble(tail, st, next);
        let w0: u16 = match items[0] {
            GItem::Addr(GAddr::Num(v)) => v,
            GItem::Inst(i) => inst_word(i),
            GItem::Addr(GAddr::Sym(_, _)) => 0,
        };
        assert(step_word(items[0], st, next) == Ok::<
            (u16, Map<Seq<u8>, SymInfo>, u16),
            crate::prog::EncodeErr,
        >((w0, st, next)));
        match items[0] {
            GItem::Inst(i) => {
                lemma_word_layout(i);
                lemma_c_word_tag(inst_word(i));
                lemma_word_inverse(i);
                assert(item_of_word(w0) == Ok::<GItem, DisErr>(items[0]));
            },
            GItem::Addr(GAddr::Num(v)) => {
                assert(item_of_word(w0) == Ok::<GItem, DisErr>(items[0]));
            },
            GItem::Addr(GAddr::Sym(_, _)) => {
                assert(false);
            },
        }
        match resolve_words(tail, st, next) {
            Ok((ws_t, _, _)) => {
                let ws = seq![w0] + ws_t;
                assert(resolve_words(items, st, next) == Ok::<_, crate::prog::EncodeErr>(
                    (ws, st, next),
                ));
                assert(ws[0] == w0);
                assert(ws.subrange(1, ws.len() as int) =~= ws_t);
                assert(seq![items[0]] + tail =~= items);
                lemma_bin_inverse(ws);
                lemma_bintext_inverse(ws, 1);
            },
            Err(_) => {
                assert(false);
            },
        }
    }
}

/// How each item relates to its encoded word once resolution is done:
/// an instruction packs to its word, a numeric address is its own
/// word, and a symbol carries its predefined address or its binding in
/// the final table.
pub open spec fn word_resolved(it: GItem, w: u16, st2: Map<Seq<u8>, SymInfo>) -> bool {
    match it {
        GItem::Addr(GAddr::Num(v)) => w == v,
        GItem::Inst(i) => w == inst_word(i),
        GItem::Addr(GAddr::Sym(_, n)) => match predefined_addr(n) {
            Some(a) => w == a,
            None => st2.contains_key(n) && w == st2[n].addr,
        },
    }
}

/// Resolution only grows the symbol table, and each encoded word is
/// the resolution of its item against the final table.
pub proof fn lemma_resolve_extends(items: Seq<GItem>, st: Map<Seq<u8>, SymInfo>, next: u16)
    ensures
        resolve_words(items, st, next) matches Ok((ws, st2, n2)) ==> {
            &&& ws.len() == items.len()
            &&& next <= n2
            &&& forall|k: Seq<u8>|
                st.contains_key(k) ==> #[trigger] st2.contains_key(k) && st2[k] == st[k]
            &&& forall|i: int| 0 <= i < items.len() ==> word_resolved(#[trigger] items[i], ws[i], st2)
        },
    decreases items.len(),
{
    if items.len() == 0 {
    } else {
        let tail = items.subrange(1, items.len() as int);
        match step_word(items[0], st, next) {
            Err(_) => {},
            Ok((w0, st1, n1)) => {
                lemma_resolve_extends(tail, st1, n1);
                match resolve_words(tail, st1, n1) {
                    Err(_) => {},
                    Ok((ws_t, st2, n2)) => {
                        let ws = seq![w0] + ws_t;
                        assert(ws[0] == w0);
                        assert forall|k: Seq<u8>| st.contains_key(k) implies #[trigger] st2.contains_key(
                            k,
                        ) && st2[k] == st[k] by {
                            assert(st1.contains_key(k) && st1[k] == st[k]);
                        }
                        assert(word_resolved(items[0], w0, st2)) by {
                            match items[0] {
                                GItem::Addr(GAddr::Sym(_, n)) => {
                                    if predefined_addr(n) is None {
                                        if st.contains_key(n) {
                                            assert(st1 == st);
                                            assert(st2.contains_key(n) && st2[n] == st[n]);
                                        } else {
                                            assert(st1.contains_key(n) && st1[n].addr == next);
                                            assert(st2.contains_key(n) && st2[n] == st1[n]);
                                        }
                                    }
                                },
                                _ => {},
                            }
                        }
                        assert forall|i: int| 0 <= i < items.len() implies word_resolved(
                            #[trigger] items[i],
                            ws[i],
                            st2,
                        ) by {
                            if i > 0 {
                                assert(tail[i - 1] == items[i]);
                                assert(word_resolved(tail[i - 1], ws_t[i - 1], st2));
                            }
                        }
                    },
                }
            },
        }
    }
}

/// Symbol stability: two references to the same name in one program
/// resolve to the same address.
pub proof fn lemma_symbol_stability(
    items: Seq<GItem>,
    st: Map<Seq<u8>, SymInfo>,
    next: u16,
    i: int,
    j: int,
    pi: Loc,
    pj: Loc,
    name: Seq<u8>,
)
    requires
        0 <= i < items.len(),
        0 <= j < items.len(),
        items[i] == GItem::Addr(GAddr::Sym(pi, name)),
        items[j] == GItem::Addr(GAddr::Sym(pj, name)),
    ensures
        resolve_words(items, st, next) matches Ok((ws, st2, n2)) ==> ws[i] == ws[j],
{
    lemma_resolve_extends(items, st, next);
}

/// Variable start: in a program whose first item is an undeclared
/// variable and whose symbol table is empty, that variable is
/// allocated the address 16.
pub proof fn lemma_variable_start(items: Seq<GItem>, pos: Loc, name: Seq<u8>)
    requires
        items.len() > 0,
        items[0] == GItem::Addr(GAddr::Sym(pos, name)),
        predefined_addr(name) is None,
    ensures
        resolve_words(items, Map::empty(), 16) matches Ok((ws, st2, n2)) ==> ws[0] == 16
            && st2.contains_key(name) && st2[name].addr == 16,
{
    let st = Map::<Seq<u8>, SymInfo>::empty();
    match step_word(items[0], st, 16) {
        Err(_) => {},
        Ok((w0, st1, n1)) => {
            assert(w0 == 16);
            assert(st1.contains_key(name) && st1[name].addr == 16);
            let tail = items.subrange(1, items.len() as int);
            lemma_resolve_extends(tail, st1, n1);
            match resolve_words(tail, st1, n1) {
                Err(_) => {},
                Ok((ws_t, st2, n2)) => {
                    assert((seq![w0] + ws_t)[0] == 16);
                    assert(st2.contains_key(name) && st2[name] == st1[name]);
                },
            }
        },
    }
}

} // verus!
