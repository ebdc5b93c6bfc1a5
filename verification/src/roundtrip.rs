use crate::codec::{concat, lemma_concat_first, lemma_window_split, next_bool_at, next_i32_at, next_string_at, next_var_int_at};
use crate::components::{
    MAX_COLORS, MAX_EFFECTS, MAX_ENCHANTMENTS, MAX_EXPLOSIONS, MAX_FLIGHT_DURATION, color_parts, dec_color_list, dec_colors,
    dec_effect, dec_effect_list, dec_enchantment_list, dec_enchantments, dec_explosion, dec_explosion_list, dec_fireworks,
    dec_potion, effect_parts, enc_colors, enc_effect, enc_enchantments, enc_explosion, enc_fireworks, enc_optional_i32,
    enc_optional_var_int, enc_potion, enc_potion_head, enchantment_parts, explosion_parts,
};
use crate::error::ReadingError;
use crate::item::{ENCHANTMENT_COUNT, ExplosionView, FireworkExplosionShape, PotionView, StatusEffectInstance};
use crate::ser::{encode_bool, encode_i32, encode_string, lemma_bool_roundtrip, lemma_i32_roundtrip, lemma_string_roundtrip, string_fits};
use crate::var_int::{encode_var_int, lemma_encode_var_u32_len, lemma_var_int_roundtrip};
use vstd::prelude::*;

verus! {

/// The window of `s` at `p` holds exactly `e`.
pub open spec fn holds_at(s: Seq<u8>, p: int, e: Seq<u8>) -> bool {
    &&& 0 <= p
    &&& p + e.len() <= s.len()
    &&& s.subrange(p, p + e.len()) == e
}

proof fn lemma_split_around(s: Seq<u8>, p: int, e: Seq<u8>)
    requires
        holds_at(s, p, e),
    ensures
        s == s.take(p) + e + s.skip(p + e.len()),
{
    assert(s =~= s.take(p) + e + s.skip(p + e.len()));
}

/// A VarInt written at `p` reads back.
pub proof fn lemma_var_int_at(s: Seq<u8>, p: int, v: i32)
    requires
        holds_at(s, p, encode_var_int(v)),
    ensures
        next_var_int_at(s, p) == Ok::<(i32, int), ReadingError>((v, p + encode_var_int(v).len())),
{
    lemma_split_around(s, p, encode_var_int(v));
    lemma_var_int_roundtrip(s.take(p), v, s.skip(p + encode_var_int(v).len()));
    lemma_encode_var_u32_len(v as u32);
}

/// A boolean written at `p` reads back.
pub proof fn lemma_bool_at(s: Seq<u8>, p: int, b: bool)
    requires
        holds_at(s, p, encode_bool(b)),
    ensures
        next_bool_at(s, p) == Ok::<(bool, int), ReadingError>((b, p + 1)),
{
    lemma_split_around(s, p, encode_bool(b));
    lemma_bool_roundtrip(s.take(p), b, s.skip(p + 1));
}

/// An `i32` written at `p` reads back.
pub proof fn lemma_i32_at(s: Seq<u8>, p: int, v: i32)
    requires
        holds_at(s, p, encode_i32(v)),
    ensures
        next_i32_at(s, p) == Ok::<(i32, int), ReadingError>((v, p + 4)),
{
    lemma_split_around(s, p, encode_i32(v));
    lemma_i32_roundtrip(s.take(p), v, s.skip(p + 4));
}

/// A string written at `p` reads back.
pub proof fn lemma_string_at(s: Seq<u8>, p: int, chars: Seq<char>)
    requires
        string_fits(chars),
        holds_at(s, p, encode_string(chars)),
    ensures
        next_string_at(s, p) == Ok::<(Seq<char>, int), ReadingError>((chars, p + encode_string(chars).len())),
{
    lemma_split_around(s, p, encode_string(chars));
    lemma_string_roundtrip(s.take(p), chars, s.skip(p + encode_string(chars).len()));
    lemma_encode_var_u32_len(vstd::utf8::encode_utf8(chars).len() as i32 as u32);
}

/// Two consecutive windows: `x` at `p` and `y` right after it.
proof fn lemma_split2(s: Seq<u8>, p: int, x: Seq<u8>, y: Seq<u8>)
    requires
        holds_at(s, p, x + y),
    ensures
        holds_at(s, p, x),
        holds_at(s, p + x.len(), y),
{
    lemma_window_split(s, p, x, y);
}

/// Every enchantment id names a registered enchantment.
pub open spec fn enchantment_ids_valid(es: Seq<(u8, i32)>) -> bool {
    forall|i: int| 0 <= i < es.len() ==> #[trigger] es[i].0 < ENCHANTMENT_COUNT
}

proof fn lemma_enchantment_list_at(s: Seq<u8>, p: int, es: Seq<(u8, i32)>)
    requires
        enchantment_ids_valid(es),
        holds_at(s, p, concat(enchantment_parts(es))),
    ensures
        dec_enchantment_list(s, p, es.len()) == Ok::<(Seq<(u8, i32)>, int), ReadingError>(
            (es, p + concat(enchantment_parts(es)).len()),
        ),
    decreases es.len(),
{
    let parts = enchantment_parts(es);
    if es.len() == 0 {
        assert(es =~= Seq::<(u8, i32)>::empty());
    } else {
        lemma_concat_first(parts);
        let tail = es.drop_first();
        assert(parts.drop_first() =~= enchantment_parts(tail));
        let e0 = encode_var_int((es[0].0 + 1) as i32);
        let e1 = encode_var_int(es[0].1);
        assert(parts[0] == e0 + e1);
        lemma_split2(s, p, parts[0], concat(enchantment_parts(tail)));
        lemma_split2(s, p, e0, e1);
        lemma_var_int_at(s, p, (es[0].0 + 1) as i32);
        lemma_var_int_at(s, p + e0.len(), es[0].1);
        assert(es[0].0 < ENCHANTMENT_COUNT);
        assert((((es[0].0 + 1) as i32) - 1) as u8 == es[0].0);
        assert(enchantment_ids_valid(tail)) by {
            assert forall|i: int| 0 <= i < tail.len() implies #[trigger] tail[i].0 < ENCHANTMENT_COUNT by {
                assert(tail[i] == es[i + 1]);
            }
        }
        lemma_enchantment_list_at(s, p + parts[0].len(), tail);
        assert(seq![es[0]] + tail =~= es);
        assert((es.len() - 1) as nat == tail.len());
    }
}

/// Enchantments that are written read back, when their ids are registered and there
/// are at most `MAX_ENCHANTMENTS` of them.
pub proof fn lemma_enchantments_at(s: Seq<u8>, p: int, es: Seq<(u8, i32)>)
    requires
        enchantment_ids_valid(es),
        es.len() <= MAX_ENCHANTMENTS,
        holds_at(s, p, enc_enchantments(es)),
    ensures
        dec_enchantments(s, p) == Ok::<(Seq<(u8, i32)>, int), ReadingError>((es, p + enc_enchantments(es).len())),
{
    let h = encode_var_int(es.len() as i32);
    lemma_split2(s, p, h, concat(enchantment_parts(es)));
    lemma_var_int_at(s, p, es.len() as i32);
    lemma_enchantment_list_at(s, p + h.len(), es);
}

proof fn lemma_effect_at(s: Seq<u8>, p: int, e: StatusEffectInstance)
    requires
        holds_at(s, p, enc_effect(e)),
    ensures
        dec_effect(s, p) == Ok::<(StatusEffectInstance, int), ReadingError>((e, p + enc_effect(e).len())),
{
    let a = encode_var_int(e.effect_id);
    let b = encode_var_int(e.amplifier);
    let c = encode_var_int(e.duration);
    let f1 = encode_bool(e.ambient);
    let f2 = encode_bool(e.show_particles);
    let f3 = encode_bool(e.show_icon);
    let f4 = encode_bool(false);
    lemma_split2(s, p, a + b + c + f1 + f2 + f3, f4);
    lemma_split2(s, p, a + b + c + f1 + f2, f3);
    lemma_split2(s, p, a + b + c + f1, f2);
    lemma_split2(s, p, a + b + c, f1);
    lemma_split2(s, p, a + b, c);
    lemma_split2(s, p, a, b);
    lemma_var_int_at(s, p, e.effect_id);
    lemma_var_int_at(s, p + a.len(), e.amplifier);
    lemma_var_int_at(s, p + a.len() + b.len(), e.duration);
    lemma_bool_at(s, p + a.len() + b.len() + c.len(), e.ambient);
    lemma_bool_at(s, p + a.len() + b.len() + c.len() + 1, e.show_particles);
    lemma_bool_at(s, p + a.len() + b.len() + c.len() + 2, e.show_icon);
    lemma_bool_at(s, p + a.len() + b.len() + c.len() + 3, false);
}

proof fn lemma_effect_list_at(s: Seq<u8>, p: int, es: Seq<StatusEffectInstance>)
    requires
        holds_at(s, p, concat(effect_parts(es))),
    ensures
        dec_effect_list(s, p, es.len()) == Ok::<(Seq<StatusEffectInstance>, int), ReadingError>(
            (es, p + concat(effect_parts(es)).len()),
        ),
    decreases es.len(),
{
    let parts = effect_parts(es);
    if es.len() == 0 {
        assert(es =~= Seq::<StatusEffectInstance>::empty());
    } else {
        lemma_concat_first(parts);
        let tail = es.drop_first();
        assert(parts.drop_first() =~= effect_parts(tail));
        lemma_split2(s, p, parts[0], concat(effect_parts(tail)));
        lemma_effect_at(s, p, es[0]);
        lemma_effect_list_at(s, p + parts[0].len(), tail);
        assert(seq![es[0]] + tail =~= es);
        assert((es.len() - 1) as nat == tail.len());
    }
}

/// Potion contents that are written read back, when they have a potion id and a color
/// (without them the reader takes the next field's bytes for the missing value), at most
/// `MAX_EFFECTS` effects, and either a name or nothing after them.
pub proof fn lemma_potion_at(s: Seq<u8>, p: int, v: PotionView)
    requires
        v.potion_id is Some,
        v.custom_color is Some,
        v.custom_effects.len() <= MAX_EFFECTS,
        enc_potion(v) is Some,
        holds_at(s, p, enc_potion(v)->0),
        v.custom_name is Some || p + enc_potion(v)->0.len() == s.len(),
    ensures
        dec_potion(s, p) == Ok::<(PotionView, int), ReadingError>((v, p + enc_potion(v)->0.len())),
{
    let o1 = enc_optional_var_int(v.potion_id);
    let o2 = enc_optional_i32(v.custom_color);
    let n = encode_var_int(v.custom_effects.len() as i32);
    let ef = concat(effect_parts(v.custom_effects));
    let head = enc_potion_head(v);
    let tail = match v.custom_name {
        Some(name) => encode_bool(true) + encode_string(name),
        None => encode_bool(false),
    };
    assert(enc_potion(v)->0 == head + tail);
    lemma_split2(s, p, head, tail);
    lemma_split2(s, p, o1 + o2 + n, ef);
    lemma_split2(s, p, o1 + o2, n);
    lemma_split2(s, p, o1, o2);
    let id = v.potion_id->0;
    let color = v.custom_color->0;
    lemma_split2(s, p, encode_bool(true), encode_var_int(id));
    lemma_bool_at(s, p, true);
    lemma_var_int_at(s, p + 1, id);
    let p2 = p + o1.len();
    lemma_split2(s, p2, encode_bool(true), encode_i32(color));
    lemma_bool_at(s, p2, true);
    lemma_i32_at(s, p2 + 1, color);
    let p4 = p2 + o2.len();
    lemma_var_int_at(s, p4, v.custom_effects.len() as i32);
    let p5 = p4 + n.len();
    lemma_effect_list_at(s, p5, v.custom_effects);
    let p6 = p5 + ef.len();
    assert(p6 == p + head.len());
    match v.custom_name {
        Some(name) => {
            lemma_split2(s, p6, encode_bool(true), encode_string(name));
            lemma_bool_at(s, p6, true);
            lemma_string_at(s, p6 + 1, name);
        },
        None => {
            lemma_bool_at(s, p6, false);
        },
    }
}

proof fn lemma_color_list_at(s: Seq<u8>, p: int, cs: Seq<i32>)
    requires
        holds_at(s, p, concat(color_parts(cs))),
    ensures
        dec_color_list(s, p, cs.len()) == Ok::<(Seq<i32>, int), ReadingError>((cs, p + concat(color_parts(cs)).len())),
    decreases cs.len(),
{
    let parts = color_parts(cs);
    if cs.len() == 0 {
        assert(cs =~= Seq::<i32>::empty());
    } else {
        lemma_concat_first(parts);
        let tail = cs.drop_first();
        assert(parts.drop_first() =~= color_parts(tail));
        lemma_split2(s, p, parts[0], concat(color_parts(tail)));
        lemma_i32_at(s, p, cs[0]);
        lemma_color_list_at(s, p + 4, tail);
        assert(seq![cs[0]] + tail =~= cs);
        assert((cs.len() - 1) as nat == tail.len());
    }
}

proof fn lemma_colors_at(s: Seq<u8>, p: int, cs: Seq<i32>)
    requires
        cs.len() <= MAX_COLORS,
        holds_at(s, p, enc_colors(cs)),
    ensures
        dec_colors(s, p) == Ok::<(Seq<i32>, int), ReadingError>((cs, p + enc_colors(cs).len())),
{
    let h = encode_var_int(cs.len() as i32);
    lemma_split2(s, p, h, concat(color_parts(cs)));
    lemma_var_int_at(s, p, cs.len() as i32);
    lemma_color_list_at(s, p + h.len(), cs);
}

/// An explosion's lists are short enough to be read back.
pub open spec fn explosion_readable(v: ExplosionView) -> bool {
    v.colors.len() <= MAX_COLORS && v.fade_colors.len() <= MAX_COLORS
}

/// A firework explosion that is written reads back, when it has at most `MAX_COLORS`
/// colors and fade colors.
pub proof fn lemma_explosion_at(s: Seq<u8>, p: int, v: ExplosionView)
    requires
        explosion_readable(v),
        holds_at(s, p, enc_explosion(v)),
    ensures
        dec_explosion(s, p) == Ok::<(ExplosionView, int), ReadingError>((v, p + enc_explosion(v).len())),
{
    let a = encode_var_int(v.shape.spec_to_id());
    let c1 = enc_colors(v.colors);
    let c2 = enc_colors(v.fade_colors);
    let t1 = encode_bool(v.has_trail);
    let t2 = encode_bool(v.has_twinkle);
    lemma_split2(s, p, a + c1 + c2 + t1, t2);
    lemma_split2(s, p, a + c1 + c2, t1);
    lemma_split2(s, p, a + c1, c2);
    lemma_split2(s, p, a, c1);
    lemma_var_int_at(s, p, v.shape.spec_to_id());
    assert(FireworkExplosionShape::spec_from_id(v.shape.spec_to_id()) == Some(v.shape));
    lemma_colors_at(s, p + a.len(), v.colors);
    lemma_colors_at(s, p + a.len() + c1.len(), v.fade_colors);
    lemma_bool_at(s, p + a.len() + c1.len() + c2.len(), v.has_trail);
    lemma_bool_at(s, p + a.len() + c1.len() + c2.len() + 1, v.has_twinkle);
}

proof fn lemma_explosion_list_at(s: Seq<u8>, p: int, es: Seq<ExplosionView>)
    requires
        forall|i: int| 0 <= i < es.len() ==> explosion_readable(#[trigger] es[i]),
        holds_at(s, p, concat(explosion_parts(es))),
    ensures
        dec_explosion_list(s, p, es.len()) == Ok::<(Seq<ExplosionView>, int), ReadingError>(
            (es, p + concat(explosion_parts(es)).len()),
        ),
    decreases es.len(),
{
    let parts = explosion_parts(es);
    if es.len() == 0 {
        assert(es =~= Seq::<ExplosionView>::empty());
    } else {
        lemma_concat_first(parts);
        let tail = es.drop_first();
        assert(parts.drop_first() =~= explosion_parts(tail));
        lemma_split2(s, p, parts[0], concat(explosion_parts(tail)));
        assert(explosion_readable(es[0]));
        lemma_explosion_at(s, p, es[0]);
        assert forall|i: int| 0 <= i < tail.len() implies explosion_readable(#[trigger] tail[i]) by {
            assert(tail[i] == es[i + 1]);
        }
        lemma_explosion_list_at(s, p + parts[0].len(), tail);
        assert(seq![es[0]] + tail =~= es);
        assert((es.len() - 1) as nat == tail.len());
    }
}

/// Fireworks that are written read back, when the flight duration is in range and there
/// are at most `MAX_EXPLOSIONS` readable explosions.
pub proof fn lemma_fireworks_at(s: Seq<u8>, p: int, v: (i32, Seq<ExplosionView>))
    requires
        0 <= v.0 <= MAX_FLIGHT_DURATION,
        v.1.len() <= MAX_EXPLOSIONS,
        forall|i: int| 0 <= i < v.1.len() ==> explosion_readable(#[trigger] v.1[i]),
        holds_at(s, p, enc_fireworks(v)),
    ensures
        dec_fireworks(s, p) == Ok::<((i32, Seq<ExplosionView>), int), ReadingError>((v, p + enc_fireworks(v).len())),
{
    let a = encode_var_int(v.0);
    let b = encode_var_int(v.1.len() as i32);
    lemma_split2(s, p, a + b, concat(explosion_parts(v.1)));
    lemma_split2(s, p, a, b);
    lemma_var_int_at(s, p, v.0);
    lemma_var_int_at(s, p + a.len(), v.1.len() as i32);
    lemma_explosion_list_at(s, p + a.len() + b.len(), v.1);
}

} // verus!
