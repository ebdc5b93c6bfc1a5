# pumpkin

Verified pieces of a Minecraft server: the network codecs for item stacks and their
data components, inventory slot logic, shulker boxes, a plant block, and the timing and
routing decisions of the server loop. The library under `src/` is checked by Verus; the
runtime in `app/` (statics, the tick loop, console threads) calls into it.

Layout of `src/`:

- `var_int.rs`, `ser.rs`, `codec.rs`: VarInts, big-endian integers, strings, byte
  buffers and a position-keeping `Deserializer`, each reader with a specification over
  byte sequences.
- `item.rs`: items, data component values, item stacks and their mathematical views.
- `components.rs`, `data_component.rs`: readers and writers of each component kind, of
  containers and of whole stacks.
- `roundtrip.rs`, `laws.rs`: what reading gives back of writing (VarInts, strings,
  components, stacks, containers).
- `item_stack.rs`, `item_stack_serializer.rs`: stack operations, stacks on the wire,
  and matching a stack against the hashes a client sends.
- `slot.rs`: inventories and normal and armor slots; taking and inserting conserve items.
- `shulker_box.rs`, `block.rs`, `plant.rs`: block behaviour.
- `server.rs`: stop signal, address scrubbing, packet routing, start-up plan, console
  reactions and tick timing.
