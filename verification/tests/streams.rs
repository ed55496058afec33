use freemkv_engine::language::{bib_to_terminologic, first_answer, normalize_lang};
use freemkv_engine::streams::{
    class_languages, is_wanted, resolve_stream_selection, DiscTitle, PidFilter, Stream,
    StreamChoice, StreamClass, StreamFilter, StreamSelError,
};
use isolang::Language;

const BIB_CODES: [&str; 20] = [
    "alb", "arm", "baq", "bur", "cze", "chi", "dut", "fre", "geo", "ger", "gre", "ice", "mac",
    "mao", "may", "per", "rum", "slo", "tib", "wel",
];

fn audio(pid: u16, lang: &str) -> Stream {
    Stream::Audio { pid, language: lang.into() }
}

fn sub(pid: u16, lang: &str) -> Stream {
    Stream::Subtitle { pid, language: lang.into() }
}

fn title() -> DiscTitle {
    DiscTitle {
        streams: vec![
            Stream::Video { pid: 0x1011 },
            audio(0x1100, "eng"),
            audio(0x1101, "spa"),
            audio(0x1102, "fra"),
            audio(0x1103, "eng"),
            sub(0x1200, "eng"),
            sub(0x1201, "fra"),
        ],
    }
}

fn choice(audio: StreamFilter, subtitles: StreamFilter) -> StreamChoice {
    StreamChoice { audio, subtitles }
}

#[test]
fn every_bibliographic_code_resolves_to_its_terminologic_language() {
    for bib in BIB_CODES {
        let via_bib =
            normalize_lang(bib).unwrap_or_else(|| panic!("{bib}: no language resolved"));
        let term = bib_to_terminologic(bib)
            .unwrap_or_else(|| panic!("{bib}: not in the /B → /T table"));
        let via_term = Language::from_639_3(term)
            .unwrap_or_else(|| panic!("{bib} → {term}: not a 639-3 code"))
            .to_639_3()
            .to_string();
        assert_eq!(
            via_bib, via_term,
            "{bib} resolved to {via_bib:?} but its /T form {term} is {via_term:?}"
        );
    }
}

#[test]
fn no_bibliographic_arm_is_dead() {
    for bib in BIB_CODES {
        assert!(
            Language::from_639_1(bib).is_none() && Language::from_639_3(bib).is_none(),
            "{bib} resolves without the table — its arm is unreachable"
        );
    }
}

#[test]
fn unknown_three_letter_tags_do_not_resolve() {
    for tag in ["zzz", "qqq", "xyz"] {
        assert!(normalize_lang(tag).is_none(), "{tag} unexpectedly resolved");
    }
}

#[test]
fn all_maps_to_pidfilter_all() {
    let sel =
        resolve_stream_selection(&title(), &StreamFilter::All, &StreamFilter::All).unwrap();
    assert_eq!(sel.audio, PidFilter::All);
    assert_eq!(sel.subtitle, PidFilter::All);
}

#[test]
fn none_maps_to_only_empty() {
    let sel =
        resolve_stream_selection(&title(), &StreamFilter::Nothing, &StreamFilter::Nothing).unwrap();
    assert_eq!(sel.audio, PidFilter::Only(vec![]));
    assert_eq!(sel.subtitle, PidFilter::Only(vec![]));
}

#[test]
fn full_name_code1_code3_all_match_same_language() {
    for tag in ["English", "english", "en", "eng", "ENG"] {
        let sel = resolve_stream_selection(
            &title(),
            &StreamFilter::Langs(vec![tag.into()]),
            &StreamFilter::All,
        )
        .unwrap();
        assert_eq!(
            sel.audio,
            PidFilter::Only(vec![0x1100, 0x1103]),
            "tag {tag} should match both eng audio streams"
        );
    }
}

#[test]
fn bibliographic_variant_unifies_with_terminologic() {
    let sel = resolve_stream_selection(
        &title(),
        &StreamFilter::Langs(vec!["fre".into()]),
        &StreamFilter::All,
    )
    .unwrap();
    assert_eq!(sel.audio, PidFilter::Only(vec![0x1102]));
}

#[test]
fn multiple_langs_select_union_in_stream_order() {
    let sel = resolve_stream_selection(
        &title(),
        &StreamFilter::Langs(vec!["spa".into(), "fra".into()]),
        &StreamFilter::All,
    )
    .unwrap();
    assert_eq!(sel.audio, PidFilter::Only(vec![0x1101, 0x1102]));
}

#[test]
fn subtitle_langs_are_independent_of_audio() {
    let sel = resolve_stream_selection(
        &title(),
        &StreamFilter::Langs(vec!["eng".into()]),
        &StreamFilter::Langs(vec!["fra".into()]),
    )
    .unwrap();
    assert_eq!(sel.audio, PidFilter::Only(vec![0x1100, 0x1103]));
    assert_eq!(sel.subtitle, PidFilter::Only(vec![0x1201]));
}

#[test]
fn unknown_language_tag_errors() {
    let err = resolve_stream_selection(
        &title(),
        &StreamFilter::Langs(vec!["Klingonish".into()]),
        &StreamFilter::All,
    )
    .unwrap_err();
    assert_eq!(
        err,
        StreamSelError::UnknownLanguage {
            tag: "Klingonish".into()
        }
    );
}

#[test]
fn lang_missing_on_title_yields_no_pids_for_that_class() {
    let sel = resolve_stream_selection(
        &title(),
        &StreamFilter::Langs(vec!["jpn".into()]),
        &StreamFilter::All,
    )
    .unwrap();
    assert_eq!(sel.audio, PidFilter::Only(vec![]));
}

#[test]
fn unmatched_flags_a_language_absent_from_a_present_class() {
    let u =
        choice(StreamFilter::Langs(vec!["jpn".into()]), StreamFilter::All).unmatched(&title());
    assert_eq!(u.len(), 1);
    assert_eq!(u[0].class, "audio");
    assert_eq!(u[0].requested, vec!["jpn".to_string()]);
    assert_eq!(
        u[0].available,
        vec!["eng".to_string(), "fra".into(), "spa".into()]
    );
}

#[test]
fn unmatched_is_empty_when_a_requested_language_is_present() {
    let u = choice(
        StreamFilter::Langs(vec!["eng".into()]),
        StreamFilter::Langs(vec!["fra".into()]),
    )
    .unmatched(&title());
    assert!(u.is_empty(), "got {u:?}");
}

#[test]
fn unmatched_ignores_all_and_none() {
    assert!(
        choice(StreamFilter::All, StreamFilter::Nothing)
            .unmatched(&title())
            .is_empty()
    );
    assert!(
        choice(StreamFilter::Nothing, StreamFilter::All)
            .unmatched(&title())
            .is_empty()
    );
}

#[test]
fn unmatched_skips_a_class_the_title_lacks_entirely() {
    let t = DiscTitle { streams: vec![audio(0x1100, "eng")] };
    let u = choice(StreamFilter::All, StreamFilter::Langs(vec!["eng".into()])).unmatched(&t);
    assert!(u.is_empty(), "got {u:?}");
}

#[test]
fn unmatched_flags_a_class_whose_streams_are_all_untagged() {
    let t = DiscTitle { streams: vec![audio(0x1100, ""), audio(0x1101, "")] };
    let u = choice(StreamFilter::Langs(vec!["eng".into()]), StreamFilter::All).unmatched(&t);
    assert_eq!(
        u.len(),
        1,
        "untagged audio must be reported as unmatched, got {u:?}"
    );
    assert_eq!(u[0].class, "audio");
    assert_eq!(
        u[0].available,
        vec!["und".to_string()],
        "an untagged track must surface as 'und', not as a blank"
    );
}

#[test]
fn resolve_delegates_to_resolve_stream_selection() {
    let t = title();
    let choice = StreamChoice {
        audio: StreamFilter::Langs(vec!["fre".into()]),
        subtitles: StreamFilter::Nothing,
    };
    let via_method = choice.resolve(&t).unwrap();
    let via_function = resolve_stream_selection(&t, &choice.audio, &choice.subtitles).unwrap();
    assert_eq!(via_method.audio, via_function.audio);
    assert_eq!(via_method.subtitle, via_function.subtitle);
    assert_eq!(via_method.audio, PidFilter::Only(vec![0x1102]));
    assert_eq!(via_method.subtitle, PidFilter::Only(vec![]));
    assert_ne!(via_method.audio, PidFilter::All);
}

#[test]
fn unmatched_flags_both_classes_independently() {
    let u = choice(
        StreamFilter::Langs(vec!["jpn".into()]),
        StreamFilter::Langs(vec!["kor".into()]),
    )
    .unmatched(&title());
    assert_eq!(u.len(), 2);
    assert!(u.iter().any(|c| c.class == "audio"));
    assert!(u.iter().any(|c| c.class == "subtitle"));
}

#[test]
fn lookups_answer_with_the_three_letter_code() {
    assert_eq!(normalize_lang("de"), Some("deu".to_string()));
    assert_eq!(normalize_lang("deu"), Some("deu".to_string()));
    assert_eq!(normalize_lang("ger"), Some("deu".to_string()));
    assert_eq!(normalize_lang(" GERMAN "), Some("deu".to_string()));
    assert_eq!(normalize_lang(""), None);
    assert_eq!(normalize_lang("   "), None);
}

#[test]
fn the_first_answer_wins() {
    let s = |t: &str| Some(t.to_string());
    assert_eq!(first_answer(None, None, None, None), None);
    assert_eq!(first_answer(None, None, None, s("d")), s("d"));
    assert_eq!(first_answer(None, None, s("c"), s("d")), s("c"));
    assert_eq!(first_answer(None, s("b"), s("c"), s("d")), s("b"));
    assert_eq!(first_answer(s("a"), s("b"), None, None), s("a"));
}

#[test]
fn a_language_is_wanted_only_if_it_is_known_and_listed() {
    let wanted = vec!["eng".to_string(), "fra".to_string()];
    assert!(is_wanted(&Some("fra".to_string()), &wanted));
    assert!(!is_wanted(&Some("deu".to_string()), &wanted));
    assert!(!is_wanted(&None, &wanted));
    assert!(!is_wanted(&Some("eng".to_string()), &Vec::new()));
}

#[test]
fn an_unknown_audio_tag_is_reported_before_an_unknown_subtitle_tag() {
    let err = resolve_stream_selection(
        &title(),
        &StreamFilter::Langs(vec!["eng".into(), "Klingonish".into(), "Vulcanese".into()]),
        &StreamFilter::Langs(vec!["Romulish".into()]),
    )
    .unwrap_err();
    assert_eq!(err, StreamSelError::UnknownLanguage { tag: "Klingonish".into() });
}

#[test]
fn languages_of_a_class_keep_order_and_empty_tags() {
    let t = DiscTitle {
        streams: vec![audio(1, "spa"), sub(2, "eng"), audio(3, ""), audio(4, "eng")],
    };
    assert_eq!(class_languages(&t, StreamClass::Audio), vec!["spa", "", "eng"]);
    assert_eq!(class_languages(&t, StreamClass::Subtitle), vec!["eng"]);
}

#[test]
fn available_languages_are_listed_once_each_in_order() {
    let t = DiscTitle {
        streams: vec![audio(1, "spa"), audio(2, ""), audio(3, "eng"), audio(4, "spa"), audio(5, "")],
    };
    let u = choice(StreamFilter::Langs(vec!["jpn".into(), "nonsense".into()]), StreamFilter::All)
        .unmatched(&t);
    assert_eq!(u.len(), 1);
    assert_eq!(u[0].available, vec!["eng", "spa", "und"]);
    assert_eq!(u[0].requested, vec!["jpn", "nonsense"]);
}
