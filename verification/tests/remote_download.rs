use weixin_agent::media::mime::{extension_from_mime, extension_from_url, get_extension_from_content_type_or_url};
use weixin_agent::media::remote_download::temp_file_name;

#[test]
fn extension_from_content_type() {
    assert_eq!(extension_from_mime("image/png"), ".png");
    assert_eq!(extension_from_mime(" IMAGE/JPEG ; charset=x"), ".jpg");
    assert_eq!(extension_from_mime("application/unknown"), ".bin");
    assert_eq!(extension_from_mime(""), ".bin");
}

#[test]
fn extension_from_url_path() {
    assert_eq!(extension_from_url("https://host/a/b.PNG?x=1.gif#c.mp3"), ".png");
    assert_eq!(extension_from_url("https://img.png"), ".bin");
    assert_eq!(extension_from_url("https://host/"), ".bin");
    assert_eq!(extension_from_url("https://host/file.xyz"), ".bin");
    assert_eq!(extension_from_url("https://host/.png"), ".bin");
    assert_eq!(extension_from_url("relative/clip.mp4"), ".mp4");
}

#[test]
fn extension_prefers_known_content_type() {
    assert_eq!(get_extension_from_content_type_or_url(Some("video/mp4"), "https://h/a.png"), ".mp4");
    assert_eq!(get_extension_from_content_type_or_url(Some("text/html"), "https://h/a.png"), ".png");
    assert_eq!(get_extension_from_content_type_or_url(None, "https://h/a.gif"), ".gif");
}

#[test]
fn temp_file_name_format() {
    assert_eq!(temp_file_name("remote", ".png", 255), "remote-00000000000000ff.png");
}
