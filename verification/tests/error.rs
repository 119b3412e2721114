use barzel::error::BarzelError;

#[test]
fn errors_show_their_kind_and_text() {
    let text = || "why".to_string();
    let all = [
        BarzelError::Detection(text()),
        BarzelError::Config(text()),
        BarzelError::Io(text()),
        BarzelError::Serde(text()),
        BarzelError::TomlSer(text()),
        BarzelError::TomlDe(text()),
        BarzelError::UnknownCommand(text()),
    ];
    for e in &all {
        assert!(e.message().ends_with("why"));
    }
    let starts = [
        "project detection failed: ",
        "configuration error: ",
        "I/O error: ",
        "serialization error: ",
        "TOML error: ",
        "TOML parse error: ",
        "unknown command: ",
    ];
    for (e, start) in all.iter().zip(starts) {
        assert!(e.message().starts_with(start));
    }
}
