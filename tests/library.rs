use tattle::codes::ErrorDesc;
use tattle::display::DisplayOptions;
use tattle::library::SourceLibrary;
use tattle::{Loc, Reporter};

const E003: ErrorDesc = ErrorDesc { short: "E003", long: "undefined name" };

#[test]
fn register_gives_dense_ids() {
    let mut lib = SourceLibrary::new();
    let a = lib.register(Some("a.txt"), "alpha\n");
    let b = lib.register(Some("b.txt"), "beta\ngamma\n");
    assert_eq!((a, b), (0, 1));
    assert_eq!(lib.resolve(a).name(), "a.txt");
    assert_eq!(lib.resolve(b).name(), "b.txt");
}

#[test]
fn message_rendered_against_its_file() {
    let mut lib = SourceLibrary::new();
    lib.register(Some("a.txt"), "alpha\n");
    let b = lib.register(Some("b.txt"), "beta\ngamma\n");
    let mut r = Reporter::new();
    r.error(Loc::in_file(5, 10, b), &E003, "unknown `gamma`".to_string());
    r.info("done".to_string());
    let mut out = String::new();
    for m in r.poll() {
        lib.write_fmt(&mut out, &m, DisplayOptions::String);
    }
    assert_eq!(
        out,
        "error[E003]: unknown `gamma`\n--> b.txt:2:1\n   2| gamma\n   2| ^^^^^\ninfo: done\n"
    );
}

#[test]
fn span_without_file_uses_the_only_text() {
    let mut lib = SourceLibrary::new();
    lib.register(None, "x = y\n");
    let mut r = Reporter::new();
    r.error(Loc::new(4, 5), &E003, "y".to_string());
    let ms = r.poll();
    let mut out = String::new();
    lib.write_fmt(&mut out, &ms[0], DisplayOptions::String);
    assert_eq!(out, "error[E003]: y\n--> <none>:1:5\n   1| x = y\n   1|     ^\n");
}
