use whatsapp_lite::file_names::{clean_file_name, extend_path, extension};
use whatsapp_lite::save_dialog::{
    keep_original_extension_if_missing, open_save_dialog, original_extension, placed,
};

#[test]
fn save_dialog_keeps_original_extension_when_user_deletes_it() {
    let path = keep_original_extension_if_missing(
        r"C:\Users\Levi\Desktop\novo_nome".to_string(),
        Some("pdf"),
    );
    assert!(path.ends_with(r"novo_nome.pdf"));
}

#[test]
fn save_dialog_respects_extension_user_typed() {
    let path = keep_original_extension_if_missing(
        r"C:\Users\Levi\Desktop\novo_nome.txt".to_string(),
        Some("pdf"),
    );
    assert!(path.ends_with(r"novo_nome.txt"));
}

fn kept(selected: &str, ext: &str) -> String {
    keep_original_extension_if_missing(selected.to_string(), Some(ext))
}

#[test]
fn bare_names_get_the_extension() {
    assert_eq!(kept("foto", "jpg"), "foto.jpg");
    assert_eq!(kept("foto.", "jpg"), "foto.jpg");
    assert_eq!(kept("foto. . ", "jpg"), "foto. . ");
    assert_eq!(kept("foto ..", "jpg"), "foto.jpg");
    assert_eq!(kept("a.b.", "jpg"), "a.jpg");
    assert_eq!(kept(".bashrc", "txt"), ".bashrc.txt");
    assert_eq!(kept("foto.png", "jpg"), "foto.png");
}

#[test]
fn what_is_no_file_name_stays() {
    for path in ["", ".", "..", "...", " ", "/"] {
        assert_eq!(kept(path, "pdf"), path);
    }
    assert_eq!(
        keep_original_extension_if_missing("foto".to_string(), None),
        "foto"
    );
    assert_eq!(kept("foto", ""), "foto");
}

#[test]
fn directory_of_the_chosen_path_stays() {
    let path = kept("/home/levi/Downloads/foto", "jpg");
    assert!(path == "/home/levi/Downloads/foto.jpg" || path == "/home/levi/Downloads\\foto.jpg");
    let path = kept("/home/levi.d/foto. ", "jpg");
    assert_eq!(path, "/home/levi.d/foto. ");
    assert_eq!(kept("/home/levi/foto.png", "jpg"), "/home/levi/foto.png");
}

#[test]
fn keeping_twice_changes_nothing_more() {
    for name in ["foto", "a.b.", ".x", "foto.png", "...", "d.e/foto.", "/foto", "C:/a.b."] {
        let once = kept(name, "jpg");
        assert_eq!(kept(&once, "jpg"), once);
    }
}

#[test]
fn offered_names_have_their_extensions() {
    assert_eq!(original_extension("doc.pdf").as_deref(), Some("pdf"));
    assert_eq!(original_extension("a.tar.gz").as_deref(), Some("gz"));
    assert_eq!(original_extension("/tmp/x.d/doc.pdf").as_deref(), Some("pdf"));
    for name in ["doc", "doc.", ".pdf", "", "..", "/tmp/x.d/doc"] {
        assert_eq!(original_extension(name), None);
    }
}

#[test]
fn extension_of_a_file_name() {
    assert_eq!(extension("a.b").as_deref(), Some("b"));
    assert_eq!(extension("a.").as_deref(), Some(""));
    assert_eq!(extension(".a"), None);
    assert_eq!(extension("a"), None);
}

#[test]
fn clean_name_of_a_file() {
    assert_eq!(clean_file_name(Some("x .."), Some("y")).as_deref(), Some("x"));
    assert_eq!(clean_file_name(Some("x.z"), Some("y")), None);
    assert_eq!(clean_file_name(Some("x"), Some("")), None);
    assert_eq!(clean_file_name(Some("x"), None), None);
    assert_eq!(clean_file_name(None, Some("y")), None);
    assert_eq!(clean_file_name(Some(".."), Some("y")), None);
}

#[test]
fn extension_goes_behind_the_stem() {
    assert_eq!(extend_path("d.e/a", Some("a"), "y"), "d.e/a.y");
    assert_eq!(extend_path("d.e/a.b", Some("a.b"), "y"), "d.e/a.y");
    assert_eq!(extend_path("d.e/.b", Some(".b"), "y"), "d.e/.b.y");
    assert_eq!(extend_path("C:", None, "y"), "C:");
    assert_eq!(extend_path("a/", Some("a"), "y"), "a/");
}

#[test]
fn dialog_joins_the_offered_and_the_chosen_name() {
    assert_eq!(
        open_save_dialog(Some("conta.pdf"), Some("luz".to_string())).as_deref(),
        Some("luz.pdf")
    );
    assert_eq!(
        open_save_dialog(Some("conta.pdf"), Some("luz.txt".to_string())).as_deref(),
        Some("luz.txt")
    );
    assert_eq!(
        open_save_dialog(Some("conta"), Some("luz".to_string())).as_deref(),
        Some("luz")
    );
    assert_eq!(
        open_save_dialog(None, Some("luz".to_string())).as_deref(),
        Some("luz")
    );
    assert_eq!(open_save_dialog(Some("conta.pdf"), None), None);
}

#[test]
fn chosen_directory_stays_before_the_new_name() {
    for (selected, saved) in [
        (r"C:\Users\Levi\Desktop\novo_nome", r"C:\Users\Levi\Desktop\novo_nome.pdf"),
        (r"C:\novo_nome.", r"C:\novo_nome.pdf"),
        (r"C:novo_nome", r"C:novo_nome.pdf"),
        (r"\novo_nome", r"\novo_nome.pdf"),
        (r"\docs\novo_nome", r"\docs\novo_nome.pdf"),
        (r"docs\a b. ", r"docs\a b. "),
        (r"\\servidor\docs\novo_nome", r"\\servidor\docs\novo_nome.pdf"),
        (r"\\servidor\docs\ano\novo_nome", r"\\servidor\docs\ano\novo_nome.pdf"),
        ("/novo_nome", "/novo_nome.pdf"),
        ("C:/novo_nome", "C:/novo_nome.pdf"),
    ] {
        assert_eq!(kept(selected, "pdf"), saved);
        assert_eq!(kept(saved, "pdf"), saved);
        assert_eq!(
            open_save_dialog(Some("conta.pdf"), Some(selected.to_string())).as_deref(),
            Some(saved)
        );
    }
}

#[test]
fn typed_extension_stays_on_every_path() {
    for path in [
        r"C:\Users\levi.r\a.txt",
        r"\\servidor.local\docs\a.txt",
        "//servidor/docs/a.txt",
        "docs/a.txt",
        "a..txt",
    ] {
        assert_eq!(kept(path, "pdf"), path);
    }
}

#[test]
fn offered_paths_have_their_extensions() {
    assert_eq!(original_extension(r"C:\docs\conta.pdf").as_deref(), Some("pdf"));
    assert_eq!(original_extension(r"C:\docs\conta"), None);
    assert_eq!(original_extension(r"\\servidor\docs\conta.pdf").as_deref(), Some("pdf"));
    assert_eq!(original_extension("C:/conta.pdf").as_deref(), Some("pdf"));
    assert_eq!(original_extension("/conta"), None);
}

#[test]
fn answer_of_the_system_is_taken_unless_it_lost_the_directory() {
    let at = |selected: &str, found: &str, answer: &str| {
        placed(selected, found, "b.pdf", answer.to_string())
    };
    assert_eq!(at("d/b", "b", "d/b.pdf"), "d/b.pdf");
    assert_eq!(at("d/b", "b", r"d\b.pdf"), r"d\b.pdf");
    assert_eq!(at(r"d\b", "b", "b.pdf"), r"d\b.pdf");
    assert_eq!(at("b/", "b", "b.pdf"), "b.pdf");
    assert_eq!(at("b", "b", "x"), "b.pdf");
}

#[test]
fn directories_with_dots_stay() {
    for (dir, name) in [
        ("/x.", "foto"),
        (".", "foto."),
        ("..", "foto"),
        ("a/..", "foto"),
        ("/home/levi.r", "foto"),
        ("/home/u/.cache", "12:30"),
        ("//servidor/docs", "foto"),
    ] {
        let saved = kept(&format!("{dir}/{name}"), "jpg");
        let new = format!("{}.jpg", name.trim_end_matches('.'));
        assert!(saved == format!("{dir}/{new}") || saved == format!("{dir}\\{new}"));
        assert_eq!(kept(&saved, "jpg"), saved);
    }
    assert_eq!(original_extension("/x./doc"), None);
    assert_eq!(original_extension("./doc.pdf").as_deref(), Some("pdf"));
}

#[test]
fn normalised_directories_keep_the_name() {
    for path in ["a//foto", "a/./foto", "//foto", r"C:/a\foto"] {
        assert!(kept(path, "jpg").ends_with("foto.jpg"));
    }
}
