use snifferlauncher::texture_cache::{
    wallpaper_id, LruTextureCache, DEFAULT_MAX_TEXTURES, DEFAULT_MAX_VRAM_BYTES,
};

#[test]
fn default_cache_is_empty_with_default_budgets() {
    let c = LruTextureCache::default();
    assert_eq!(c.len(), 0);
    assert_eq!(c.access_counter(), 0);
    assert_eq!(c.total_vram_bytes(), 0);
    assert_eq!(c.max_vram_bytes(), 64 * 1024 * 1024);
    assert_eq!(DEFAULT_MAX_VRAM_BYTES, 64 * 1024 * 1024);
    assert_eq!(c.max_textures(), 128);
    assert_eq!(DEFAULT_MAX_TEXTURES, 128);
    assert!(!c.has_image("a"));
    assert_eq!(wallpaper_id(), "__system_wallpaper__");
}

#[test]
fn loading_a_resident_image_only_marks_it_used() {
    let mut c = LruTextureCache::default();
    assert!(c.load_image("a", 2, 2).is_empty());
    assert_eq!(c.total_vram_bytes(), 16);
    assert_eq!(c.access_counter(), 1);
    let h = c.get("a").unwrap();
    assert_eq!((h.width, h.height, h.size_bytes, h.last_used), (2, 2, 16, 1));
    assert!(c.load_image("a", 50, 50).is_empty());
    assert_eq!(c.total_vram_bytes(), 16);
    assert_eq!(c.access_counter(), 2);
    let h = c.get("a").unwrap();
    assert_eq!((h.width, h.height, h.size_bytes, h.last_used), (2, 2, 16, 2));
    assert_eq!(c.len(), 1);
}

#[test]
fn count_budget_evicts_least_recently_used() {
    let mut c = LruTextureCache::with_budget(1 << 20, 3);
    for k in ["a", "b", "c"] {
        assert!(c.load_image(k, 1, 1).is_empty());
    }
    assert_eq!((c.load_image("d", 1, 1)), vec!["a"]);
    assert!(!c.has_image("a"));
    assert!(c.has_image("b") && c.has_image("c") && c.has_image("d"));
    assert_eq!(c.total_vram_bytes(), 12);
}

#[test]
fn drawing_an_image_protects_it_from_eviction() {
    let mut c = LruTextureCache::with_budget(1 << 20, 3);
    for k in ["a", "b", "c"] {
        c.load_image(k, 1, 1);
    }
    let h = c.mark_drawn("a").unwrap();
    assert_eq!(h.last_used, 4);
    assert_eq!(c.mark_drawn("missing"), None);
    assert_eq!(c.access_counter(), 5);
    assert_eq!((c.load_image("d", 1, 1)), vec!["b"]);
    assert!(c.has_image("a"));
}

#[test]
fn memory_budget_evicts_until_the_new_texture_fits() {
    let mut c = LruTextureCache::with_budget(100, 128);
    c.load_image("a", 2, 2);
    c.load_image("b", 3, 3);
    assert_eq!(c.total_vram_bytes(), 52);
    assert_eq!((c.load_image("c", 4, 4)), vec!["a"]);
    assert_eq!(c.total_vram_bytes(), 100);
    // Evicting stops once a single texture is left, even over budget.
    assert_eq!((c.load_image("d", 5, 5)), vec!["b"]);
    assert_eq!(c.total_vram_bytes(), 164);
    assert_eq!(c.len(), 2);
}

#[test]
fn the_wallpaper_is_never_evicted() {
    let mut c = LruTextureCache::with_budget(10, 128);
    assert!(c.load_wallpaper(1, 1).is_empty());
    assert!(c.load_image("x", 1, 1).is_empty());
    assert_eq!((c.load_image("y", 1, 1)), vec!["x"]);
    assert_eq!(c.total_vram_bytes(), 8);
    // Over budget with only the wallpaper left to evict: the new texture goes in anyway.
    assert_eq!((c.load_image("z", 10, 10)), vec!["y"]);
    assert_eq!(c.total_vram_bytes(), 404);
    assert!(c.has_image("__system_wallpaper__") && c.has_image("z"));
    assert_eq!(c.len(), 2);
}

#[test]
fn a_new_wallpaper_replaces_the_old_one() {
    let mut c = LruTextureCache::default();
    c.load_wallpaper(2, 2);
    c.load_image("a", 1, 1);
    assert_eq!(c.total_vram_bytes(), 20);
    assert!(c.load_wallpaper(3, 1).is_empty());
    assert_eq!(c.total_vram_bytes(), 16);
    assert_eq!(c.len(), 2);
    let h = c.get("__system_wallpaper__").unwrap();
    assert_eq!((h.width, h.height, h.size_bytes, h.last_used), (3, 1, 12, 3));
}

#[test]
fn low_memory_keeps_only_the_wallpaper() {
    let mut c = LruTextureCache::default();
    c.load_image("a", 1, 1);
    c.load_wallpaper(2, 2);
    c.load_image("b", 1, 1);
    assert_eq!((c.release_all_but_wallpaper()), vec!["a", "b"]);
    assert_eq!(c.len(), 1);
    assert!(c.has_image("__system_wallpaper__"));
    assert_eq!(c.total_vram_bytes(), 0);
    assert_eq!(c.access_counter(), 3);

    let mut bare = LruTextureCache::default();
    bare.load_image("a", 1, 1);
    assert_eq!((bare.release_all_but_wallpaper()), vec!["a"]);
    assert_eq!(bare.len(), 0);
}
