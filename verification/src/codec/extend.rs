//! Reading does not look ahead: what reads off the front of some bytes reads the
//! same off the front of more.
use super::format::{
    parse, read_apply, read_body, read_delta_list, read_deltas, read_float, read_form,
    read_hash_list, read_hashes, read_hello, read_hit, read_hosted, read_item, read_movement,
    read_name, read_transform, read_welcome,
};
use crate::primitive::{
    read_bool, read_i32, read_len, read_text, read_u16, read_u32, read_u64, read_varint,
};
use vstd::prelude::*;

verus! {

proof fn lemma_varint_more(b: Seq<u8>, more: Seq<u8>, max_len: nat, top: nat)
    ensures
        read_varint(b, max_len, top) matches Some((v, rest)) ==> read_varint(
            b + more,
            max_len,
            top,
        ) == Some((v, rest + more)),
    decreases max_len,
{
    if max_len > 0 && b.len() > 0 {
        assert((b + more).skip(1) =~= b.skip(1) + more);
        assert((b + more)[0] == b[0]);
        if b[0] >= 128 {
            lemma_varint_more(b.skip(1), more, (max_len - 1) as nat, top);
        }
    }
}

proof fn lemma_u16_more(b: Seq<u8>, more: Seq<u8>)
    ensures
        read_u16(b) matches Some((v, rest)) ==> read_u16(b + more) == Some((v, rest + more)),
{
    lemma_varint_more(b, more, 3, 3);
}

proof fn lemma_u32_more(b: Seq<u8>, more: Seq<u8>)
    ensures
        read_u32(b) matches Some((v, rest)) ==> read_u32(b + more) == Some((v, rest + more)),
{
    lemma_varint_more(b, more, 5, 15);
}

proof fn lemma_u64_more(b: Seq<u8>, more: Seq<u8>)
    ensures
        read_u64(b) matches Some((v, rest)) ==> read_u64(b + more) == Some((v, rest + more)),
{
    lemma_varint_more(b, more, 10, 1);
}

proof fn lemma_len_more(b: Seq<u8>, more: Seq<u8>)
    ensures
        read_len(b) matches Some((v, rest)) ==> read_len(b + more) == Some((v, rest + more)),
{
    lemma_varint_more(b, more, 5, 15);
    lemma_varint_more(b, more, 10, 1);
}

proof fn lemma_i32_more(b: Seq<u8>, more: Seq<u8>)
    ensures
        read_i32(b) matches Some((v, rest)) ==> read_i32(b + more) == Some((v, rest + more)),
{
    lemma_u32_more(b, more);
}

proof fn lemma_bool_more(b: Seq<u8>, more: Seq<u8>)
    ensures
        read_bool(b) matches Some((v, rest)) ==> read_bool(b + more) == Some((v, rest + more)),
{
    if b.len() > 0 {
        assert((b + more).skip(1) =~= b.skip(1) + more);
    }
}

proof fn lemma_float_more(b: Seq<u8>, more: Seq<u8>)
    ensures
        read_float(b) matches Some((v, rest)) ==> read_float(b + more) == Some((v, rest + more)),
{
    if b.len() >= 4 {
        assert((b + more).take(4) =~= b.take(4));
        assert((b + more).skip(4) =~= b.skip(4) + more);
    }
}

proof fn lemma_text_more(b: Seq<u8>, more: Seq<u8>)
    ensures
        read_text(b) matches Some((v, rest)) ==> read_text(b + more) == Some((v, rest + more)),
{
    lemma_len_more(b, more);
    if let Some((n, rest)) = read_len(b) {
        if n <= rest.len() {
            assert((rest + more).take(n as int) =~= rest.take(n as int));
            assert((rest + more).skip(n as int) =~= rest.skip(n as int) + more);
        }
    }
}

proof fn lemma_form_more(b: Seq<u8>, more: Seq<u8>)
    ensures
        read_form(b) matches Some((v, rest)) ==> read_form(b + more) == Some((v, rest + more)),
{
    lemma_u32_more(b, more);
}

proof fn lemma_transform_more(b: Seq<u8>, more: Seq<u8>)
    ensures
        read_transform(b) matches Some((v, rest)) ==> read_transform(b + more) == Some((v, rest + more)),
{
    lemma_float_more(b, more);
    if let Some((_, b1)) = read_float(b) {
        lemma_float_more(b1, more);
        if let Some((_, b2)) = read_float(b1) {
            lemma_float_more(b2, more);
            if let Some((_, b3)) = read_float(b2) {
                lemma_float_more(b3, more);
                if let Some((_, b4)) = read_float(b3) {
                    lemma_float_more(b4, more);
                }
            }
        }
    }
}

proof fn lemma_hashes_more(b: Seq<u8>, more: Seq<u8>, n: nat)
    ensures
        read_hashes(b, n) matches Some((v, rest)) ==> read_hashes(b + more, n) == Some(
            (v, rest + more),
        ),
    decreases n,
{
    if n > 0 {
        lemma_hashes_more(b, more, (n - 1) as nat);
        if let Some((_, b1)) = read_hashes(b, (n - 1) as nat) {
            lemma_u64_more(b1, more);
        }
    }
}

proof fn lemma_hash_list_more(b: Seq<u8>, more: Seq<u8>)
    ensures
        read_hash_list(b) matches Some((v, rest)) ==> read_hash_list(b + more) == Some((v, rest + more)),
{
    lemma_len_more(b, more);
    if let Some((n, b1)) = read_len(b) {
        lemma_hashes_more(b1, more, n);
    }
}

proof fn lemma_item_more(b: Seq<u8>, more: Seq<u8>)
    ensures
        read_item(b) matches Some((v, rest)) ==> read_item(b + more) == Some((v, rest + more)),
{
    lemma_form_more(b, more);
    if let Some((_, b1)) = read_form(b) {
        lemma_i32_more(b1, more);
    }
}

proof fn lemma_deltas_more(b: Seq<u8>, more: Seq<u8>, n: nat)
    ensures
        read_deltas(b, n) matches Some((v, rest)) ==> read_deltas(b + more, n) == Some(
            (v, rest + more),
        ),
    decreases n,
{
    if n > 0 {
        lemma_deltas_more(b, more, (n - 1) as nat);
        if let Some((_, b1)) = read_deltas(b, (n - 1) as nat) {
            lemma_item_more(b1, more);
        }
    }
}

proof fn lemma_delta_list_more(b: Seq<u8>, more: Seq<u8>)
    ensures
        read_delta_list(b) matches Some((v, rest)) ==> read_delta_list(b + more) == Some((v, rest + more)),
{
    lemma_len_more(b, more);
    if let Some((n, b1)) = read_len(b) {
        lemma_deltas_more(b1, more, n);
    }
}

proof fn lemma_name_more(b: Seq<u8>, more: Seq<u8>)
    ensures
        read_name(b) matches Some((v, rest)) ==> read_name(b + more) == Some((v, rest + more)),
{
    lemma_text_more(b, more);
}

proof fn lemma_hello_more(b: Seq<u8>, more: Seq<u8>)
    ensures
        read_hello(b) matches Some((v, rest)) ==> read_hello(b + more) == Some((v, rest + more)),
{
    lemma_u16_more(b, more);
    if let Some((_, b1)) = read_u16(b) {
        lemma_u32_more(b1, more);
        if let Some((_, b2)) = read_u32(b1) {
            lemma_hash_list_more(b2, more);
            if let Some((_, b3)) = read_hash_list(b2) {
                lemma_name_more(b3, more);
            }
        }
    }
}

proof fn lemma_movement_more(b: Seq<u8>, more: Seq<u8>)
    ensures
        read_movement(b) matches Some((v, rest)) ==> read_movement(b + more) == Some((v, rest + more)),
{
    lemma_u32_more(b, more);
    if let Some((_, b1)) = read_u32(b) {
        lemma_form_more(b1, more);
        if let Some((_, b2)) = read_form(b1) {
            lemma_transform_more(b2, more);
            if let Some((_, b3)) = read_transform(b2) {
                lemma_bool_more(b3, more);
                if let Some((_, b4)) = read_bool(b3) {
                    lemma_bool_more(b4, more);
                }
            }
        }
    }
}

proof fn lemma_hit_more(b: Seq<u8>, more: Seq<u8>)
    ensures
        read_hit(b) matches Some((v, rest)) ==> read_hit(b + more) == Some((v, rest + more)),
{
    lemma_u32_more(b, more);
    if let Some((_, b1)) = read_u32(b) {
        lemma_form_more(b1, more);
        if let Some((_, b2)) = read_form(b1) {
            lemma_form_more(b2, more);
            if let Some((_, b3)) = read_form(b2) {
                lemma_form_more(b3, more);
                if let Some((_, b4)) = read_form(b3) {
                    lemma_bool_more(b4, more);
                    if let Some((_, b5)) = read_bool(b4) {
                        lemma_u32_more(b5, more);
                    }
                }
            }
        }
    }
}

proof fn lemma_hosted_more(b: Seq<u8>, more: Seq<u8>)
    ensures
        read_hosted(b) matches Some((v, rest)) ==> read_hosted(b + more) == Some((v, rest + more)),
{
    lemma_form_more(b, more);
    if let Some((_, b1)) = read_form(b) {
        lemma_transform_more(b1, more);
        if let Some((_, b2)) = read_transform(b1) {
            lemma_float_more(b2, more);
            if let Some((_, b3)) = read_float(b2) {
                lemma_delta_list_more(b3, more);
            }
        }
    }
}

proof fn lemma_welcome_more(b: Seq<u8>, more: Seq<u8>)
    ensures
        read_welcome(b) matches Some((v, rest)) ==> read_welcome(b + more) == Some((v, rest + more)),
{
    lemma_u64_more(b, more);
    if let Some((_, b1)) = read_u64(b) {
        lemma_u64_more(b1, more);
    }
}

proof fn lemma_apply_more(b: Seq<u8>, more: Seq<u8>)
    ensures
        read_apply(b) matches Some((v, rest)) ==> read_apply(b + more) == Some((v, rest + more)),
{
    lemma_form_more(b, more);
    if let Some((_, b1)) = read_form(b) {
        lemma_item_more(b1, more);
    }
}

proof fn lemma_body_more(t: u32, b: Seq<u8>, more: Seq<u8>)
    ensures
        read_body(t, b) matches Some((v, rest)) ==> read_body(t, b + more) == Some(
            (v, rest + more),
        ),
{
    if t == 0 {
        lemma_hello_more(b, more);
    } else if t == 1 {
        lemma_welcome_more(b, more);
    } else if t == 2 {
        lemma_u16_more(b, more);
    } else if t == 3 {
        lemma_movement_more(b, more);
    } else if t == 4 {
        lemma_hit_more(b, more);
    } else if t == 5 {
        lemma_hosted_more(b, more);
    } else if t == 6 {
        lemma_apply_more(b, more);
    } else {
        lemma_form_more(b, more);
    }
}

/// A message reads the same whatever follows it.
pub proof fn lemma_parse_more(b: Seq<u8>, more: Seq<u8>)
    ensures
        parse(b) matches Some((m, rest)) ==> parse(b + more) == Some((m, rest + more)),
{
    lemma_u32_more(b, more);
    if let Some((t, b1)) = read_u32(b) {
        lemma_body_more(t, b1, more);
    }
}

} // verus!
