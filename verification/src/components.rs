use crate::codec::{after, concat, cons, lemma_concat_take, lemma_after_cons, lemma_after_empty, next_bool_at, next_i32_at, next_string_at, next_var_int_at, optional_field};
use crate::error::{ReadingError, WritingError};
use crate::item::{
    ENCHANTMENT_COUNT, EnchantmentsImpl, ExplosionView, FireworkExplosionImpl, FireworkExplosionShape, FireworksImpl,
    PotionContentsImpl, PotionView, StatusEffectInstance, explosions_view,
};
use crate::ser::{encode_bool, encode_i32, encode_string, lemma_var_int_advances, next_bool, next_i32, next_string, next_var_int, string_fits, write_bool, write_i32, write_string};
use crate::var_int::{at_int, encode_var_int, write_var_int};
use vstd::prelude::*;

verus! {

/// A read result with its value taken by its view and its end position as an integer.
pub open spec fn as_view<T: View>(r: Result<(T, usize), ReadingError>) -> Result<(T::V, int), ReadingError> {
    match r {
        Ok((v, p)) => Ok((v@, p as int)),
        Err(e) => Err(e),
    }
}

// ---------------------------------------------------------------------------
// Max stack size and damage
// ---------------------------------------------------------------------------

/// A max stack size: one VarInt that must fit in a byte.
pub open spec fn dec_max_stack_size(s: Seq<u8>, p: int) -> Result<(u8, int), ReadingError> {
    match next_var_int_at(s, p) {
        Err(e) => Err(e),
        Ok((v, q)) => if 0 <= v <= 255 {
            Ok((v as u8, q))
        } else {
            Err(ReadingError::Invalid)
        },
    }
}

/// Reads a max stack size.
pub fn decode_max_stack_size(bytes: &[u8], p: usize) -> (res: Result<(u8, usize), ReadingError>)
    ensures
        at_int(res) == dec_max_stack_size(bytes@, p as int),
{
    let (v, q) = match next_var_int(bytes, p) {
        Ok(x) => x,
        Err(e) => return Err(e),
    };
    if 0 <= v && v <= 255 {
        Ok((v as u8, q))
    } else {
        Err(ReadingError::Invalid)
    }
}

/// Damage: one VarInt.
pub open spec fn dec_damage(s: Seq<u8>, p: int) -> Result<(i32, int), ReadingError> {
    next_var_int_at(s, p)
}

/// Reads a damage value.
pub fn decode_damage(bytes: &[u8], p: usize) -> (res: Result<(i32, usize), ReadingError>)
    ensures
        at_int(res) == dec_damage(bytes@, p as int),
{
    next_var_int(bytes, p)
}

// ---------------------------------------------------------------------------
// Enchantments
// ---------------------------------------------------------------------------

/// The most enchantments one item may carry on the wire.
pub const MAX_ENCHANTMENTS: i32 = 256;

/// `k` enchantments, each an id one above the registry id and a level.
pub open spec fn dec_enchantment_list(s: Seq<u8>, p: int, k: nat) -> Result<(Seq<(u8, i32)>, int), ReadingError>
    decreases k,
{
    if k == 0 {
        Ok((Seq::empty(), p))
    } else {
        match next_var_int_at(s, p) {
            Err(e) => Err(e),
            Ok((id, q1)) => match next_var_int_at(s, q1) {
                Err(e) => Err(e),
                Ok((level, q2)) => if id <= 0 || ((id - 1) as u8) >= ENCHANTMENT_COUNT {
                    Err(ReadingError::Invalid)
                } else {
                    cons(((id - 1) as u8, level), dec_enchantment_list(s, q2, (k - 1) as nat))
                },
            },
        }
    }
}

/// Enchantments: a count of at most `MAX_ENCHANTMENTS`, then that many entries.
pub open spec fn dec_enchantments(s: Seq<u8>, p: int) -> Result<(Seq<(u8, i32)>, int), ReadingError> {
    match next_var_int_at(s, p) {
        Err(e) => Err(e),
        Ok((n, q)) => if n < 0 || n > MAX_ENCHANTMENTS {
            Err(ReadingError::Invalid)
        } else {
            dec_enchantment_list(s, q, n as nat)
        },
    }
}

/// Reads enchantments.
pub fn decode_enchantments(bytes: &[u8], p: usize) -> (res: Result<(EnchantmentsImpl, usize), ReadingError>)
    ensures
        as_view(res) == dec_enchantments(bytes@, p as int),
{
    let (n, q0) = match next_var_int(bytes, p) {
        Ok(x) => x,
        Err(e) => return Err(e),
    };
    if n < 0 || n > MAX_ENCHANTMENTS {
        return Err(ReadingError::Invalid);
    }
    let k = n as usize;
    let mut acc: Vec<(u8, i32)> = Vec::new();
    let mut q = q0;
    let mut i: usize = 0;
    proof {
        lemma_after_empty(dec_enchantment_list(bytes@, q0 as int, k as nat));
    }
    while i < k
        invariant
            i <= k,
            k == n as nat,
            dec_enchantments(bytes@, p as int) == after(acc@, dec_enchantment_list(bytes@, q as int, (k - i) as nat)),
        decreases k - i,
    {
        let (id, q1) = match next_var_int(bytes, q) {
            Ok(x) => x,
            Err(e) => return Err(e),
        };
        let (level, q2) = match next_var_int(bytes, q1) {
            Ok(x) => x,
            Err(e) => return Err(e),
        };
        if id <= 0 {
            return Err(ReadingError::Invalid);
        }
        let eid = (id - 1) as u8;
        if eid >= ENCHANTMENT_COUNT {
            return Err(ReadingError::Invalid);
        }
        proof {
            lemma_after_cons(acc@, (eid, level), dec_enchantment_list(bytes@, q2 as int, (k - i - 1) as nat));
        }
        acc.push((eid, level));
        q = q2;
        i = i + 1;
    }
    assert(acc@ + Seq::<(u8, i32)>::empty() =~= acc@);
    Ok((EnchantmentsImpl { enchantment: acc }, q))
}

// ---------------------------------------------------------------------------
// Potion contents
// ---------------------------------------------------------------------------

/// The most custom effects one potion may carry on the wire.
pub const MAX_EFFECTS: i32 = 128;

/// A hidden effect's parameters, which are read and dropped: amplifier, duration, three
/// flags, and whether a further hidden effect follows.
pub open spec fn skip_effect_parameters(s: Seq<u8>, p: int) -> Result<int, ReadingError>
    decreases s.len() - p,
{
    match next_var_int_at(s, p) {
        Err(e) => Err(e),
        Ok((_, p1)) => match next_var_int_at(s, p1) {
            Err(e) => Err(e),
            Ok((_, p2)) => match next_bool_at(s, p2) {
                Err(e) => Err(e),
                Ok((_, p3)) => match next_bool_at(s, p3) {
                    Err(e) => Err(e),
                    Ok((_, p4)) => match next_bool_at(s, p4) {
                        Err(e) => Err(e),
                        Ok((_, p5)) => match next_bool_at(s, p5) {
                            Err(e) => Err(e),
                            Ok((hidden, p6)) => if hidden {
                                proof {
                                    lemma_var_int_advances(s, p);
                                    lemma_var_int_advances(s, p1);
                                }
                                skip_effect_parameters(s, p6)
                            } else {
                                Ok(p6)
                            },
                        },
                    },
                },
            },
        },
    }
}

/// Skips a hidden effect's parameters; returns the position after them.
pub fn skip_hidden_effect(bytes: &[u8], p: usize) -> (res: Result<usize, ReadingError>)
    ensures
        match res {
            Ok(q) => skip_effect_parameters(bytes@, p as int) == Ok::<int, ReadingError>(q as int),
            Err(e) => skip_effect_parameters(bytes@, p as int) == Err::<int, ReadingError>(e),
        },
    decreases bytes@.len() - p,
{
    let (_, p1) = match next_var_int(bytes, p) {
        Ok(x) => x,
        Err(e) => return Err(e),
    };
    let (_, p2) = match next_var_int(bytes, p1) {
        Ok(x) => x,
        Err(e) => return Err(e),
    };
    let (_, p3) = match next_bool(bytes, p2) {
        Ok(x) => x,
        Err(e) => return Err(e),
    };
    let (_, p4) = match next_bool(bytes, p3) {
        Ok(x) => x,
        Err(e) => return Err(e),
    };
    let (_, p5) = match next_bool(bytes, p4) {
        Ok(x) => x,
        Err(e) => return Err(e),
    };
    let (hidden, p6) = match next_bool(bytes, p5) {
        Ok(x) => x,
        Err(e) => return Err(e),
    };
    if hidden {
        proof {
            lemma_var_int_advances(bytes@, p as int);
            lemma_var_int_advances(bytes@, p1 as int);
        }
        skip_hidden_effect(bytes, p6)
    } else {
        Ok(p6)
    }
}

/// One custom effect: id, amplifier, duration, three flags, and an optional hidden
/// effect that is skipped.
pub open spec fn dec_effect(s: Seq<u8>, p: int) -> Result<(StatusEffectInstance, int), ReadingError> {
    match next_var_int_at(s, p) {
        Err(e) => Err(e),
        Ok((effect_id, p1)) => match next_var_int_at(s, p1) {
            Err(e) => Err(e),
            Ok((amplifier, p2)) => match next_var_int_at(s, p2) {
                Err(e) => Err(e),
                Ok((duration, p3)) => match next_bool_at(s, p3) {
                    Err(e) => Err(e),
                    Ok((ambient, p4)) => match next_bool_at(s, p4) {
                        Err(e) => Err(e),
                        Ok((show_particles, p5)) => match next_bool_at(s, p5) {
                            Err(e) => Err(e),
                            Ok((show_icon, p6)) => match next_bool_at(s, p6) {
                                Err(e) => Err(e),
                                Ok((has_hidden, p7)) => {
                                    let effect = StatusEffectInstance {
                                        effect_id,
                                        amplifier,
                                        duration,
                                        ambient,
                                        show_particles,
                                        show_icon,
                                    };
                                    if has_hidden {
                                        match skip_effect_parameters(s, p7) {
                                            Ok(p8) => Ok((effect, p8)),
                                            Err(e) => Err(e),
                                        }
                                    } else {
                                        Ok((effect, p7))
                                    }
                                },
                            },
                        },
                    },
                },
            },
        },
    }
}

/// Reads one custom effect.
pub fn decode_effect(bytes: &[u8], p: usize) -> (res: Result<(StatusEffectInstance, usize), ReadingError>)
    ensures
        at_int(res) == dec_effect(bytes@, p as int),
{
    let (effect_id, p1) = match next_var_int(bytes, p) {
        Ok(x) => x,
        Err(e) => return Err(e),
    };
    let (amplifier, p2) = match next_var_int(bytes, p1) {
        Ok(x) => x,
        Err(e) => return Err(e),
    };
    let (duration, p3) = match next_var_int(bytes, p2) {
        Ok(x) => x,
        Err(e) => return Err(e),
    };
    let (ambient, p4) = match next_bool(bytes, p3) {
        Ok(x) => x,
        Err(e) => return Err(e),
    };
    let (show_particles, p5) = match next_bool(bytes, p4) {
        Ok(x) => x,
        Err(e) => return Err(e),
    };
    let (show_icon, p6) = match next_bool(bytes, p5) {
        Ok(x) => x,
        Err(e) => return Err(e),
    };
    let (has_hidden, p7) = match next_bool(bytes, p6) {
        Ok(x) => x,
        Err(e) => return Err(e),
    };
    let effect = StatusEffectInstance { effect_id, amplifier, duration, ambient, show_particles, show_icon };
    if has_hidden {
        match skip_hidden_effect(bytes, p7) {
            Ok(p8) => Ok((effect, p8)),
            Err(e) => Err(e),
        }
    } else {
        Ok((effect, p7))
    }
}

/// `k` custom effects.
pub open spec fn dec_effect_list(s: Seq<u8>, p: int, k: nat) -> Result<(Seq<StatusEffectInstance>, int), ReadingError>
    decreases k,
{
    if k == 0 {
        Ok((Seq::empty(), p))
    } else {
        match dec_effect(s, p) {
            Err(e) => Err(e),
            Ok((x, q)) => cons(x, dec_effect_list(s, q, (k - 1) as nat)),
        }
    }
}

/// Potion contents: an optional potion id, an optional color, at most `MAX_EFFECTS`
/// custom effects, and an optional name.
/// Each optional field is read even when its flag is clear (see [`optional_field`]), so
/// contents written with no potion id or no color do not read back as written.
pub open spec fn dec_potion(s: Seq<u8>, p: int) -> Result<(PotionView, int), ReadingError> {
    match next_bool_at(s, p) {
        Err(e) => Err(e),
        Ok((has_potion, p1)) => match optional_field(has_potion, next_var_int_at(s, p1), p1) {
            Err(e) => Err(e),
            Ok((potion_id, p2)) => match next_bool_at(s, p2) {
                Err(e) => Err(e),
                Ok((has_color, p3)) => match optional_field(has_color, next_i32_at(s, p3), p3) {
                    Err(e) => Err(e),
                    Ok((custom_color, p4)) => match next_var_int_at(s, p4) {
                        Err(e) => Err(e),
                        Ok((n, p5)) => if n < 0 || n > MAX_EFFECTS {
                            Err(ReadingError::Invalid)
                        } else {
                            match dec_effect_list(s, p5, n as nat) {
                                Err(e) => Err(e),
                                Ok((custom_effects, p6)) => match next_bool_at(s, p6) {
                                    Err(e) => Err(e),
                                    Ok((has_name, p7)) => match optional_field(has_name, next_string_at(s, p7), p7) {
                                        Err(e) => Err(e),
                                        Ok((custom_name, p8)) => Ok(
                                            (PotionView { potion_id, custom_color, custom_effects, custom_name }, p8),
                                        ),
                                    },
                                },
                            }
                        },
                    },
                },
            },
        },
    }
}

/// Reads potion contents; see [`dec_potion`]. An optional field is read even when its
/// flag is clear, so what [`write_potion`] writes for a `None` id, color or name reads
/// as something else or fails.
#[verifier::loop_isolation(false)]
pub fn decode_potion(bytes: &[u8], p: usize) -> (res: Result<(PotionContentsImpl, usize), ReadingError>)
    ensures
        as_view(res) == dec_potion(bytes@, p as int),
{
    let (has_potion, p1) = match next_bool(bytes, p) {
        Ok(x) => x,
        Err(e) => return Err(e),
    };
    let (potion_id, p2) = match (has_potion, next_var_int(bytes, p1)) {
        (true, Ok((v, q))) => (Some(v), q),
        (true, Err(e)) => return Err(e),
        (false, Ok((_, q))) => (None, q),
        (false, Err(_)) => (None, p1),
    };
    let (has_color, p3) = match next_bool(bytes, p2) {
        Ok(x) => x,
        Err(e) => return Err(e),
    };
    let (custom_color, p4) = match (has_color, next_i32(bytes, p3)) {
        (true, Ok((v, q))) => (Some(v), q),
        (true, Err(e)) => return Err(e),
        (false, Ok((_, q))) => (None, q),
        (false, Err(_)) => (None, p3),
    };
    let (n, p5) = match next_var_int(bytes, p4) {
        Ok(x) => x,
        Err(e) => return Err(e),
    };
    if n < 0 || n > MAX_EFFECTS {
        return Err(ReadingError::Invalid);
    }
    let k = n as usize;
    let mut effects: Vec<StatusEffectInstance> = Vec::new();
    let mut q = p5;
    let mut i: usize = 0;
    proof {
        lemma_after_empty(dec_effect_list(bytes@, p5 as int, k as nat));
    }
    while i < k
        invariant
            i <= k,
            dec_effect_list(bytes@, p5 as int, k as nat) == after(
                effects@,
                dec_effect_list(bytes@, q as int, (k - i) as nat),
            ),
        decreases k - i,
    {
        let (effect, q1) = match decode_effect(bytes, q) {
            Ok(x) => x,
            Err(e) => return Err(e),
        };
        proof {
            lemma_after_cons(effects@, effect, dec_effect_list(bytes@, q1 as int, (k - i - 1) as nat));
        }
        effects.push(effect);
        q = q1;
        i = i + 1;
    }
    assert(effects@ + Seq::<StatusEffectInstance>::empty() =~= effects@);
    let (has_name, p7) = match next_bool(bytes, q) {
        Ok(x) => x,
        Err(e) => return Err(e),
    };
    let (custom_name, p8) = match (has_name, next_string(bytes, p7)) {
        (true, Ok((t, r))) => (Some(t), r),
        (true, Err(e)) => return Err(e),
        (false, Ok((_, r))) => (None, r),
        (false, Err(_)) => (None, p7),
    };
    let potion = PotionContentsImpl { potion_id, custom_color, custom_effects: effects, custom_name };
    Ok((potion, p8))
}

// ---------------------------------------------------------------------------
// Firework explosions and fireworks
// ---------------------------------------------------------------------------

/// The most colors, or fade colors, one explosion may carry on the wire.
pub const MAX_COLORS: i32 = 256;

/// The most explosions one firework may carry on the wire.
pub const MAX_EXPLOSIONS: i32 = 256;

/// The longest flight duration.
pub const MAX_FLIGHT_DURATION: i32 = 255;

/// `k` colors, each a big-endian `i32`.
pub open spec fn dec_color_list(s: Seq<u8>, p: int, k: nat) -> Result<(Seq<i32>, int), ReadingError>
    decreases k,
{
    if k == 0 {
        Ok((Seq::empty(), p))
    } else {
        match next_i32_at(s, p) {
            Err(e) => Err(e),
            Ok((x, q)) => cons(x, dec_color_list(s, q, (k - 1) as nat)),
        }
    }
}

/// A count of at most `MAX_COLORS`, then that many colors.
pub open spec fn dec_colors(s: Seq<u8>, p: int) -> Result<(Seq<i32>, int), ReadingError> {
    match next_var_int_at(s, p) {
        Err(e) => Err(e),
        Ok((n, q)) => if n < 0 || n > MAX_COLORS {
            Err(ReadingError::Invalid)
        } else {
            dec_color_list(s, q, n as nat)
        },
    }
}

/// Reads a counted list of colors.
pub fn decode_colors(bytes: &[u8], p: usize) -> (res: Result<(Vec<i32>, usize), ReadingError>)
    ensures
        as_view(res) == dec_colors(bytes@, p as int),
{
    let (n, q0) = match next_var_int(bytes, p) {
        Ok(x) => x,
        Err(e) => return Err(e),
    };
    if n < 0 || n > MAX_COLORS {
        return Err(ReadingError::Invalid);
    }
    let k = n as usize;
    let mut acc: Vec<i32> = Vec::new();
    let mut q = q0;
    let mut i: usize = 0;
    proof {
        lemma_after_empty(dec_color_list(bytes@, q0 as int, k as nat));
    }
    while i < k
        invariant
            i <= k,
            k == n as nat,
            dec_colors(bytes@, p as int) == after(acc@, dec_color_list(bytes@, q as int, (k - i) as nat)),
        decreases k - i,
    {
        let (color, q1) = match next_i32(bytes, q) {
            Ok(x) => x,
            Err(e) => return Err(e),
        };
        proof {
            lemma_after_cons(acc@, color, dec_color_list(bytes@, q1 as int, (k - i - 1) as nat));
        }
        acc.push(color);
        q = q1;
        i = i + 1;
    }
    assert(acc@ + Seq::<i32>::empty() =~= acc@);
    Ok((acc, q))
}

/// A firework explosion: shape id, colors, fade colors, trail flag, twinkle flag.
pub open spec fn dec_explosion(s: Seq<u8>, p: int) -> Result<(ExplosionView, int), ReadingError> {
    match next_var_int_at(s, p) {
        Err(e) => Err(e),
        Ok((shape_id, p1)) => match FireworkExplosionShape::spec_from_id(shape_id) {
            None => Err(ReadingError::Invalid),
            Some(shape) => match dec_colors(s, p1) {
                Err(e) => Err(e),
                Ok((colors, p2)) => match dec_colors(s, p2) {
                    Err(e) => Err(e),
                    Ok((fade_colors, p3)) => match next_bool_at(s, p3) {
                        Err(e) => Err(e),
                        Ok((has_trail, p4)) => match next_bool_at(s, p4) {
                            Err(e) => Err(e),
                            Ok((has_twinkle, p5)) => Ok(
                                (ExplosionView { shape, colors, fade_colors, has_trail, has_twinkle }, p5),
                            ),
                        },
                    },
                },
            },
        },
    }
}

/// Reads a firework explosion.
pub fn decode_explosion(bytes: &[u8], p: usize) -> (res: Result<(FireworkExplosionImpl, usize), ReadingError>)
    ensures
        as_view(res) == dec_explosion(bytes@, p as int),
{
    let (shape_id, p1) = match next_var_int(bytes, p) {
        Ok(x) => x,
        Err(e) => return Err(e),
    };
    let shape = match FireworkExplosionShape::from_id(shape_id) {
        Some(x) => x,
        None => return Err(ReadingError::Invalid),
    };
    let (colors, p2) = match decode_colors(bytes, p1) {
        Ok(x) => x,
        Err(e) => return Err(e),
    };
    let (fade_colors, p3) = match decode_colors(bytes, p2) {
        Ok(x) => x,
        Err(e) => return Err(e),
    };
    let (has_trail, p4) = match next_bool(bytes, p3) {
        Ok(x) => x,
        Err(e) => return Err(e),
    };
    let (has_twinkle, p5) = match next_bool(bytes, p4) {
        Ok(x) => x,
        Err(e) => return Err(e),
    };
    Ok((FireworkExplosionImpl { shape, colors, fade_colors, has_trail, has_twinkle }, p5))
}

/// `k` firework explosions.
pub open spec fn dec_explosion_list(s: Seq<u8>, p: int, k: nat) -> Result<(Seq<ExplosionView>, int), ReadingError>
    decreases k,
{
    if k == 0 {
        Ok((Seq::empty(), p))
    } else {
        match dec_explosion(s, p) {
            Err(e) => Err(e),
            Ok((x, q)) => cons(x, dec_explosion_list(s, q, (k - 1) as nat)),
        }
    }
}

/// Fireworks: a flight duration from 0 to `MAX_FLIGHT_DURATION`, then at most
/// `MAX_EXPLOSIONS` explosions.
pub open spec fn dec_fireworks(s: Seq<u8>, p: int) -> Result<((i32, Seq<ExplosionView>), int), ReadingError> {
    match next_var_int_at(s, p) {
        Err(e) => Err(e),
        Ok((flight, p1)) => if flight < 0 || flight > MAX_FLIGHT_DURATION {
            Err(ReadingError::Invalid)
        } else {
            match next_var_int_at(s, p1) {
                Err(e) => Err(e),
                Ok((n, p2)) => if n < 0 || n > MAX_EXPLOSIONS {
                    Err(ReadingError::Invalid)
                } else {
                    match dec_explosion_list(s, p2, n as nat) {
                        Err(e) => Err(e),
                        Ok((explosions, p3)) => Ok(((flight, explosions), p3)),
                    }
                },
            }
        },
    }
}

/// Reads fireworks.
#[verifier::loop_isolation(false)]
pub fn decode_fireworks(bytes: &[u8], p: usize) -> (res: Result<(FireworksImpl, usize), ReadingError>)
    ensures
        as_view(res) == dec_fireworks(bytes@, p as int),
{
    let (flight, p1) = match next_var_int(bytes, p) {
        Ok(x) => x,
        Err(e) => return Err(e),
    };
    if flight < 0 || flight > MAX_FLIGHT_DURATION {
        return Err(ReadingError::Invalid);
    }
    let (n, p2) = match next_var_int(bytes, p1) {
        Ok(x) => x,
        Err(e) => return Err(e),
    };
    if n < 0 || n > MAX_EXPLOSIONS {
        return Err(ReadingError::Invalid);
    }
    let k = n as usize;
    let mut acc: Vec<FireworkExplosionImpl> = Vec::new();
    let mut q = p2;
    let mut i: usize = 0;
    proof {
        lemma_after_empty(dec_explosion_list(bytes@, p2 as int, k as nat));
    }
    while i < k
        invariant
            i <= k,
            dec_explosion_list(bytes@, p2 as int, k as nat) == after(
                explosions_view(acc@),
                dec_explosion_list(bytes@, q as int, (k - i) as nat),
            ),
        decreases k - i,
    {
        let (explosion, q1) = match decode_explosion(bytes, q) {
            Ok(x) => x,
            Err(e) => return Err(e),
        };
        proof {
            lemma_after_cons(explosions_view(acc@), explosion@, dec_explosion_list(bytes@, q1 as int, (k - i - 1) as nat));
        }
        let ghost before = acc@;
        acc.push(explosion);
        assert(explosions_view(acc@) =~= explosions_view(before).push(explosion@));
        q = q1;
        i = i + 1;
    }
    assert(explosions_view(acc@) + Seq::<ExplosionView>::empty() =~= explosions_view(acc@));
    Ok((FireworksImpl { flight_duration: flight, explosions: acc }, q))
}

// ---------------------------------------------------------------------------
// Writing
// ---------------------------------------------------------------------------

/// The bytes of a max stack size.
pub open spec fn enc_max_stack_size(size: u8) -> Seq<u8> {
    encode_var_int(size as i32)
}

/// Writes a max stack size.
pub fn write_max_stack_size(out: &mut Vec<u8>, size: u8)
    ensures
        final(out)@ == old(out)@ + enc_max_stack_size(size),
{
    write_var_int(out, size as i32);
}

/// The bytes of a damage value.
pub open spec fn enc_damage(damage: i32) -> Seq<u8> {
    encode_var_int(damage)
}

/// Writes a damage value.
pub fn write_damage(out: &mut Vec<u8>, damage: i32)
    ensures
        final(out)@ == old(out)@ + enc_damage(damage),
{
    write_var_int(out, damage);
}

/// The bytes of one enchantment: its registry id plus one, then its level.
pub open spec fn enc_enchantment(e: (u8, i32)) -> Seq<u8> {
    encode_var_int((e.0 + 1) as i32) + encode_var_int(e.1)
}

/// The bytes of each enchantment.
pub open spec fn enchantment_parts(es: Seq<(u8, i32)>) -> Seq<Seq<u8>> {
    es.map_values(|e: (u8, i32)| enc_enchantment(e))
}

/// The bytes of enchantments: the count, then each enchantment.
pub open spec fn enc_enchantments(es: Seq<(u8, i32)>) -> Seq<u8> {
    encode_var_int(es.len() as i32) + concat(enchantment_parts(es))
}

/// Every enchantment id is below 255, so that one above it is still a byte.
pub open spec fn enchantment_ids_writable(es: Seq<(u8, i32)>) -> bool {
    forall|i: int| 0 <= i < es.len() ==> #[trigger] es[i].0 < 255
}

/// Writes enchantments.
pub fn write_enchantments(out: &mut Vec<u8>, e: &EnchantmentsImpl)
    requires
        enchantment_ids_writable(e@),
    ensures
        final(out)@ == old(out)@ + enc_enchantments(e@),
{
    let es = &e.enchantment;
    write_var_int(out, es.len() as i32);
    let ghost head = out@;
    let mut i: usize = 0;
    while i < es.len()
        invariant
            i <= es@.len(),
            es@ == e@,
            enchantment_ids_writable(e@),
            head == old(out)@ + encode_var_int(es@.len() as i32),
            out@ == head + concat(enchantment_parts(es@).take(i as int)),
        decreases es@.len() - i,
    {
        let (id, level) = es[i];
        proof {
            lemma_concat_take(enchantment_parts(es@), i as int);
            assert(es@[i as int].0 < 255);
        }
        write_var_int(out, (id + 1) as i32);
        write_var_int(out, level);
        assert(out@ =~= head + concat(enchantment_parts(es@).take(i + 1)));
        i = i + 1;
    }
    assert(enchantment_parts(es@).take(es@.len() as int) =~= enchantment_parts(es@));
    assert(final(out)@ =~= old(out)@ + enc_enchantments(e@));
}

/// The bytes of an optional VarInt: a presence flag, then the value when present.
pub open spec fn enc_optional_var_int(o: Option<i32>) -> Seq<u8> {
    match o {
        Some(v) => encode_bool(true) + encode_var_int(v),
        None => encode_bool(false),
    }
}

/// The bytes of an optional `i32`: a presence flag, then the value when present.
pub open spec fn enc_optional_i32(o: Option<i32>) -> Seq<u8> {
    match o {
        Some(v) => encode_bool(true) + encode_i32(v),
        None => encode_bool(false),
    }
}

/// The bytes of one custom effect; no hidden effect is written.
pub open spec fn enc_effect(e: StatusEffectInstance) -> Seq<u8> {
    encode_var_int(e.effect_id) + encode_var_int(e.amplifier) + encode_var_int(e.duration) + encode_bool(e.ambient)
        + encode_bool(e.show_particles) + encode_bool(e.show_icon) + encode_bool(false)
}

/// The bytes of each custom effect.
pub open spec fn effect_parts(es: Seq<StatusEffectInstance>) -> Seq<Seq<u8>> {
    es.map_values(|e: StatusEffectInstance| enc_effect(e))
}

/// The bytes of potion contents before the name.
pub open spec fn enc_potion_head(v: PotionView) -> Seq<u8> {
    enc_optional_var_int(v.potion_id) + enc_optional_i32(v.custom_color) + encode_var_int(v.custom_effects.len() as i32)
        + concat(effect_parts(v.custom_effects))
}

/// The bytes of potion contents; `None` when the name is too long to write.
pub open spec fn enc_potion(v: PotionView) -> Option<Seq<u8>> {
    match v.custom_name {
        Some(name) => if string_fits(name) {
            Some(enc_potion_head(v) + encode_bool(true) + encode_string(name))
        } else {
            None
        },
        None => Some(enc_potion_head(v) + encode_bool(false)),
    }
}

/// Writes one custom effect.
pub fn write_effect(out: &mut Vec<u8>, e: StatusEffectInstance)
    ensures
        final(out)@ == old(out)@ + enc_effect(e),
{
    write_var_int(out, e.effect_id);
    write_var_int(out, e.amplifier);
    write_var_int(out, e.duration);
    write_bool(out, e.ambient);
    write_bool(out, e.show_particles);
    write_bool(out, e.show_icon);
    write_bool(out, false);
    assert(final(out)@ =~= old(out)@ + enc_effect(e));
}

/// Writes an optional VarInt.
pub fn write_optional_var_int(out: &mut Vec<u8>, o: Option<i32>)
    ensures
        final(out)@ == old(out)@ + enc_optional_var_int(o),
{
    match o {
        Some(v) => {
            write_bool(out, true);
            write_var_int(out, v);
            assert(final(out)@ =~= old(out)@ + enc_optional_var_int(o));
        },
        None => {
            write_bool(out, false);
        },
    }
}

/// Writes an optional `i32`.
pub fn write_optional_i32(out: &mut Vec<u8>, o: Option<i32>)
    ensures
        final(out)@ == old(out)@ + enc_optional_i32(o),
{
    match o {
        Some(v) => {
            write_bool(out, true);
            write_i32(out, v);
            assert(final(out)@ =~= old(out)@ + enc_optional_i32(o));
        },
        None => {
            write_bool(out, false);
        },
    }
}

/// Writes a counted list of custom effects.
pub fn write_effects(out: &mut Vec<u8>, es: &Vec<StatusEffectInstance>)
    ensures
        final(out)@ == old(out)@ + encode_var_int(es@.len() as i32) + concat(effect_parts(es@)),
{
    write_var_int(out, es.len() as i32);
    let ghost head = out@;
    let mut i: usize = 0;
    while i < es.len()
        invariant
            i <= es@.len(),
            head == old(out)@ + encode_var_int(es@.len() as i32),
            out@ == head + concat(effect_parts(es@).take(i as int)),
        decreases es@.len() - i,
    {
        proof {
            lemma_concat_take(effect_parts(es@), i as int);
        }
        write_effect(out, es[i]);
        assert(out@ =~= head + concat(effect_parts(es@).take(i + 1)));
        i = i + 1;
    }
    assert(effect_parts(es@).take(es@.len() as int) =~= effect_parts(es@));
}

/// Writes potion contents; fails, having written part of them, when the name is too long.
pub fn write_potion(out: &mut Vec<u8>, v: &PotionContentsImpl) -> (res: Result<(), WritingError>)
    ensures
        res is Ok <==> enc_potion(v@) is Some,
        res is Ok ==> final(out)@ == old(out)@ + enc_potion(v@)->0,
{
    write_optional_var_int(out, v.potion_id);
    write_optional_i32(out, v.custom_color);
    write_effects(out, &v.custom_effects);
    assert(out@ =~= old(out)@ + enc_potion_head(v@));
    let ghost mid = out@;
    match &v.custom_name {
        Some(name) => {
            write_bool(out, true);
            let r = write_string(out, name.as_str());
            match r {
                Ok(()) => {
                    assert(out@ =~= mid + encode_bool(true) + encode_string(name@));
                    assert(out@ =~= old(out)@ + enc_potion(v@)->0);
                    Ok(())
                },
                Err(e) => Err(e),
            }
        },
        None => {
            write_bool(out, false);
            assert(out@ =~= old(out)@ + enc_potion(v@)->0);
            Ok(())
        },
    }
}

/// The bytes of each color.
pub open spec fn color_parts(cs: Seq<i32>) -> Seq<Seq<u8>> {
    cs.map_values(|c: i32| encode_i32(c))
}

/// The bytes of a counted list of colors.
pub open spec fn enc_colors(cs: Seq<i32>) -> Seq<u8> {
    encode_var_int(cs.len() as i32) + concat(color_parts(cs))
}

/// Writes a counted list of colors.
pub fn write_colors(out: &mut Vec<u8>, cs: &Vec<i32>)
    ensures
        final(out)@ == old(out)@ + enc_colors(cs@),
{
    write_var_int(out, cs.len() as i32);
    let ghost head = out@;
    let mut i: usize = 0;
    while i < cs.len()
        invariant
            i <= cs@.len(),
            head == old(out)@ + encode_var_int(cs@.len() as i32),
            out@ == head + concat(color_parts(cs@).take(i as int)),
        decreases cs@.len() - i,
    {
        proof {
            lemma_concat_take(color_parts(cs@), i as int);
        }
        write_i32(out, cs[i]);
        assert(out@ =~= head + concat(color_parts(cs@).take(i + 1)));
        i = i + 1;
    }
    assert(color_parts(cs@).take(cs@.len() as int) =~= color_parts(cs@));
    assert(final(out)@ =~= old(out)@ + enc_colors(cs@));
}

/// The bytes of a firework explosion.
pub open spec fn enc_explosion(v: ExplosionView) -> Seq<u8> {
    encode_var_int(v.shape.spec_to_id()) + enc_colors(v.colors) + enc_colors(v.fade_colors) + encode_bool(v.has_trail)
        + encode_bool(v.has_twinkle)
}

/// Writes a firework explosion.
pub fn write_explosion(out: &mut Vec<u8>, e: &FireworkExplosionImpl)
    ensures
        final(out)@ == old(out)@ + enc_explosion(e@),
{
    write_var_int(out, e.shape.to_id());
    write_colors(out, &e.colors);
    write_colors(out, &e.fade_colors);
    write_bool(out, e.has_trail);
    write_bool(out, e.has_twinkle);
    assert(final(out)@ =~= old(out)@ + enc_explosion(e@));
}

/// The bytes of each explosion.
pub open spec fn explosion_parts(es: Seq<ExplosionView>) -> Seq<Seq<u8>> {
    es.map_values(|e: ExplosionView| enc_explosion(e))
}

/// The bytes of fireworks: flight duration, explosion count, explosions.
pub open spec fn enc_fireworks(v: (i32, Seq<ExplosionView>)) -> Seq<u8> {
    encode_var_int(v.0) + encode_var_int(v.1.len() as i32) + concat(explosion_parts(v.1))
}

/// Writes fireworks.
pub fn write_fireworks(out: &mut Vec<u8>, f: &FireworksImpl)
    ensures
        final(out)@ == old(out)@ + enc_fireworks(f@),
{
    write_var_int(out, f.flight_duration);
    let es = &f.explosions;
    write_var_int(out, es.len() as i32);
    let ghost head = out@;
    let mut i: usize = 0;
    while i < es.len()
        invariant
            i <= es@.len(),
            head == old(out)@ + encode_var_int(f.flight_duration) + encode_var_int(es@.len() as i32),
            out@ == head + concat(explosion_parts(explosions_view(es@)).take(i as int)),
        decreases es@.len() - i,
    {
        proof {
            lemma_concat_take(explosion_parts(explosions_view(es@)), i as int);
        }
        write_explosion(out, &es[i]);
        assert(out@ =~= head + concat(explosion_parts(explosions_view(es@)).take(i + 1)));
        i = i + 1;
    }
    assert(explosion_parts(explosions_view(es@)).take(es@.len() as int) =~= explosion_parts(explosions_view(es@)));
    assert(final(out)@ =~= old(out)@ + enc_fireworks(f@));
}

} // verus!
