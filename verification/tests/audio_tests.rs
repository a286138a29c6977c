use renforge::audio::{
    build_audio_mapping_from_db, audio_mapping_from_script, detect_voice_trigger, filename_of, first_quoted, is_audio_file,
    is_voicey, mapped_line,
};

#[test]
fn first_quoted_takes_first_closed_quote() {
    assert_eq!(first_quoted("voice \"a.ogg\" x"), Some("a.ogg".to_string()));
    assert_eq!(first_quoted("say 'it''s"), Some("it".to_string()));
    assert_eq!(first_quoted("no \"end"), None);
    assert_eq!(first_quoted("nothing"), None);
    assert_eq!(first_quoted("e \"он сказал 'нет'\""), Some("он сказал 'нет'".to_string()));
}

#[test]
fn audio_names_and_file_names() {
    assert!(is_audio_file("X.OPUS"));
    assert!(is_audio_file("a.wav"));
    assert!(!is_audio_file("a.png"));
    assert_eq!(filename_of("Voice\\EP1/A.OGG"), "a.ogg");
    assert_eq!(filename_of("plain.mp3"), "plain.mp3");
}

#[test]
fn voicey_channels_and_paths() {
    assert!(is_voicey("VO", "x.ogg"));
    assert!(is_voicey("my_voice2", "x.ogg"));
    assert!(is_voicey("sound", "audio/vo/x.ogg"));
    assert!(is_voicey("sound", "voices/x.ogg"));
    assert!(!is_voicey("music", "bgm/track.ogg"));
    assert!(!is_voicey("", "sfx/door.ogg"));
}

#[test]
fn voice_triggers() {
    assert_eq!(detect_voice_trigger("voice \"vo/ep1/Line01.ogg\""), Some("line01.ogg".to_string()));
    assert_eq!(detect_voice_trigger("voice \"vo/readme.txt\""), None);
    assert_eq!(detect_voice_trigger("play music \"bgm.ogg\""), None);
    assert_eq!(detect_voice_trigger("play   voice \"x.ogg\""), Some("x.ogg".to_string()));
    assert_eq!(detect_voice_trigger("play sound \"voice/e1.ogg\""), Some("e1.ogg".to_string()));
    assert_eq!(detect_voice_trigger("$ renpy.sound.play(\"voices/a.ogg\")"), Some("a.ogg".to_string()));
    assert_eq!(detect_voice_trigger("$ renpy.play(\"sfx/a.ogg\")"), None);
    assert_eq!(detect_voice_trigger("e \"Hello\""), None);
}

#[test]
fn script_mapping_binds_voice_to_next_line() {
    let content = "label start:\n    voice \"v/a1.ogg\"\n    show eileen\n    # note\n    e \"Hello\"\n    voice \"v/a2.ogg\"\n    jump end\n    e \"Lost\"\n    voice \"v/a3.ogg\"\n    e 'Third'\n";
    let mut mapping: Vec<(String, String, String)> = vec![("z.ogg".to_string(), "z".to_string(), "z.rpy".to_string())];
    audio_mapping_from_script(content, "script.rpy", &mut mapping);
    assert_eq!(
        mapping,
        vec![
            ("z.ogg".to_string(), "z".to_string(), "z.rpy".to_string()),
            ("a1.ogg".to_string(), "e \"Hello\"".to_string(), "script.rpy".to_string()),
            ("a3.ogg".to_string(), "e 'Third'".to_string(), "script.rpy".to_string()),
        ]
    );
}

#[test]
fn db_mapping_first_wins_and_lookup_prefers_db() {
    let rows = vec![
        ("Hi".to_string(), "s.rpy".to_string(), "voice \"A.ogg\"".to_string()),
        ("Other".to_string(), "s.rpy".to_string(), "voice \"a.ogg\"".to_string()),
        ("X".to_string(), "s.rpy".to_string(), "voice get_voice(\"b.txt\")".to_string()),
        ("Y".to_string(), "t.rpy".to_string(), "voice get_voice(\"c.mp3\")".to_string()),
    ];
    let db = build_audio_mapping_from_db(&rows);
    assert_eq!(
        db,
        vec![
            ("a.ogg".to_string(), "Hi".to_string(), "s.rpy".to_string()),
            ("c.mp3".to_string(), "Y".to_string(), "t.rpy".to_string()),
        ]
    );
    let scripts = vec![
        ("a.ogg".to_string(), "e \"script\"".to_string(), "x.rpy".to_string()),
        ("d.ogg".to_string(), "e \"only here\"".to_string(), "x.rpy".to_string()),
    ];
    assert_eq!(mapped_line(&db, &scripts, &"a.ogg".to_string()), Some(("Hi".to_string(), "s.rpy".to_string())));
    assert_eq!(mapped_line(&db, &scripts, &"d.ogg".to_string()), Some(("e \"only here\"".to_string(), "x.rpy".to_string())));
    assert_eq!(mapped_line(&db, &scripts, &"none.ogg".to_string()), None);
}
