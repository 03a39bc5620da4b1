use papyro::assets::{asset_file_name, image_extension, image_markdown, markdown_path, pasted_image_stem};

#[test]
fn image_extension_accepts_known_image_types() {
    assert_eq!(image_extension("image/png"), Ok("png"));
    assert_eq!(image_extension(" IMAGE/JPEG ; charset=binary"), Ok("jpg"));
    assert_eq!(image_extension("image/jpg"), Ok("jpg"));
    assert_eq!(image_extension("image/gif"), Ok("gif"));
    assert_eq!(image_extension("image/webp"), Ok("webp"));
}

#[test]
fn image_extension_rejects_unsupported_types() {
    let error = image_extension("Text/Plain; q=1").expect_err("unsupported");
    assert!(error.contains("unsupported pasted image type"));
    assert_eq!(error, "unsupported pasted image type: text/plain");
}

#[test]
fn pasted_image_names_and_links() {
    assert_eq!(pasted_image_stem(1700000000123), "pasted-image-1700000000123");
    assert_eq!(asset_file_name("pasted-image-5", 0, "png"), "pasted-image-5.png");
    assert_eq!(asset_file_name("pasted-image-5", 12, "png"), "pasted-image-5-12.png");
    assert_eq!(markdown_path("assets//pasted-image-5.png"), "assets/pasted-image-5.png");
    assert_eq!(markdown_path("a/b/c.png/"), "a/b/c.png");
    // The root and a leading `.` are components of their own; other `.` are dropped.
    assert_eq!(markdown_path("/w/./assets/x.png"), "//w/assets/x.png");
    assert_eq!(markdown_path("./assets/x.png"), "./assets/x.png");
    assert_eq!(image_markdown("assets/x.png"), "![image](assets/x.png)");
}

use papyro::assets::{check_pasted_bytes, pasted_image_extension, pasted_image_markdown};

#[test]
fn pasted_images_are_checked_and_linked_relative_to_the_workspace() {
    assert_eq!(pasted_image_extension("/w", "/w/notes/a.md", "image/PNG; q=1"), Ok("png"));
    assert_eq!(
        pasted_image_extension("/w", "/elsewhere/a.md", "image/png"),
        Err("active note is outside the current workspace".to_string())
    );
    assert_eq!(
        pasted_image_extension("/w", "/w/a.md", "text/plain"),
        Err("unsupported pasted image type: text/plain".to_string())
    );
    assert_eq!(check_pasted_bytes(3), Ok(()));
    assert_eq!(check_pasted_bytes(0), Err("pasted image data is empty".to_string()));
    assert_eq!(
        pasted_image_markdown("/w", "/w/assets/pasted-image-1.png"),
        "![image](assets/pasted-image-1.png)"
    );
}
