use foundry::types::{ChunkKey, WorldId};
use foundry::world::ChunkCoord;

fn key(world: &str, cx: i32, cy: i32, layer: u8) -> ChunkKey {
    ChunkKey::new(WorldId::new(world), ChunkCoord::new(cx, cy), layer)
}

#[test]
fn key_text_joins_world_position_and_layer() {
    assert_eq!(key("default", 3, -4, 1).to_key_string(), "default:3:-4:1");
    assert_eq!(key("a:b", -2147483648, 2147483647, 255).to_key_string(), "a:b:-2147483648:2147483647:255");
}

#[test]
fn different_keys_give_different_key_texts() {
    let keys = [
        key("a:1", 2, 3, 0),
        key("a", 1, 2, 3),
        key("a:1:2", 3, 0, 0),
        key("a", -1, 2, 3),
        key("a", 1, -2, 3),
        key("a", 1, 2, 30),
        key("a:", 1, 2, 3),
    ];
    for i in 0..keys.len() {
        for j in 0..keys.len() {
            assert_eq!(keys[i].to_key_string() == keys[j].to_key_string(), i == j);
        }
    }
}
