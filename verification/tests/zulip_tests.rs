use anemoia::zulip::{decode_thumbnail, fmt_ts, history_url, narrow_filter, subscriptions_url, topics_url};
use anemoia::links::{extract_image_urls, image_scan_is_safe, is_image_url};
use anemoia::zulip::{
    channel_key, channels_from_subscriptions, make_auth, poll_message, topics_from_names, CachedImage, DecodedImage,
    DecodedImages, PollStep, ZulipConfig, ZulipMessage, ZulipState,
};

fn config(enabled: bool) -> ZulipConfig {
    ZulipConfig {
        enabled,
        url: "https://chat.example".to_string(),
        email: "a".to_string(),
        api_key: "b".to_string(),
        stream: "general".to_string(),
        topic: "mc".to_string(),
    }
}

fn message(id: u64, stream: &str, topic: &str) -> ZulipMessage {
    ZulipMessage {
        id,
        sender: "bob".to_string(),
        content: format!("m{}", id),
        time: "12:00".to_string(),
        stream: stream.to_string(),
        topic: topic.to_string(),
        image_urls: Vec::new(),
    }
}

#[test]
fn auth_is_base64_of_email_and_key() {
    assert_eq!(make_auth("a", "b"), "YTpi");
    assert_eq!(make_auth("bot@example.com", "k3y"), "Ym90QGV4YW1wbGUuY29tOmszeQ==");
}

#[test]
fn channel_keys_join_with_nul() {
    assert_eq!(channel_key("general", "mc"), "general\0mc");
    assert_ne!(channel_key("a", "b\0c"), channel_key("a\0b", "c").replace('\0', "x"));
}

#[test]
fn image_urls_are_recognised_by_extension() {
    assert!(is_image_url("https://x.example/a.PNG"));
    assert!(is_image_url("https://x.example/a.jpeg?size=big"));
    assert!(!is_image_url("https://x.example/a.png.html"));
    assert!(!is_image_url("https://x.example/?f=a.png"));
}

#[test]
fn image_links_of_a_message() {
    let base = "https://z.example/";
    let c = "![a](/user_uploads/1/x.png) ![b](https://i.example/c.JPG?s=1 \"t\") ![c](https://i.example/page)";
    assert!(image_scan_is_safe(c));
    assert_eq!(
        extract_image_urls(c, base),
        vec!["https://z.example/user_uploads/1/x.png", "https://i.example/c.JPG?s=1"]
    );
    let bare = "see /user_uploads/2/y.gif and (/user_uploads/2/y.gif) '/user_uploads/3/z.webp'";
    assert_eq!(
        extract_image_urls(bare, "https://z.example"),
        vec!["https://z.example/user_uploads/2/y.gif", "https://z.example/user_uploads/3/z.webp"]
    );
    assert_eq!(extract_image_urls("no images", base), Vec::<String>::new());
}

#[test]
fn non_ascii_outside_links_is_unsafe_to_scan() {
    assert!(!image_scan_is_safe("héllo"));
    assert!(image_scan_is_safe("plain ascii"));
}

#[test]
fn sending_needs_the_bridge_on() {
    let mut s = ZulipState::new();
    assert!(s.send_message("hi").is_none());
    s.set_config(config(true));
    let req = s.send_to("general", "a b", "x&y=z").expect("bridge on");
    assert_eq!(req.url, "https://chat.example/api/v1/messages");
    assert_eq!(req.auth, "YTpi");
    assert_eq!(req.body, "type=stream&to=general&topic=a%20b&content=x%26y%3Dz");
    let req = s.send_message("é").expect("bridge on");
    assert_eq!(req.body, "type=stream&to=general&topic=mc&content=%C3%A9");
}

#[test]
fn poll_steps_register_then_fetch() {
    let mut s = ZulipState::new();
    assert!(matches!(s.poll_step(), PollStep::Idle));
    s.set_config(config(true));
    match s.poll_step() {
        PollStep::Register { url, auth } => {
            assert_eq!(url, "https://chat.example/api/v1/register");
            assert_eq!(auth, "YTpi");
        }
        _ => panic!("expected a registration"),
    }
    s.apply_registration(Some("q1".to_string()), Some(41));
    match s.poll_step() {
        PollStep::Fetch { url, .. } => {
            assert_eq!(url, "https://chat.example/api/v1/events?queue_id=q1&last_event_id=41&dont_block=true")
        }
        _ => panic!("expected a fetch"),
    }
    s.queue_expired();
    assert!(matches!(s.poll_step(), PollStep::Register { .. }));
}

#[test]
fn new_credentials_drop_the_queue_and_channels() {
    let mut s = ZulipState::new();
    s.set_config(config(true));
    s.apply_registration(Some("q".to_string()), Some(3));
    assert!(s.fetch_channels().is_some());
    let mut same = config(true);
    same.topic = "other".to_string();
    s.set_config(same);
    assert_eq!(s.queue_id, Some("q".to_string()));
    assert!(s.channels_loading());
    let mut moved = config(true);
    moved.url = "https://other.example".to_string();
    s.set_config(moved);
    assert_eq!(s.queue_id, None);
    assert_eq!(s.last_event_id, -1);
    assert!(!s.channels_loading());
}

#[test]
fn channels_load_once() {
    let mut s = ZulipState::new();
    assert!(s.fetch_channels().is_none());
    s.set_config(config(true));
    let creds = s.fetch_channels().expect("starts");
    assert_eq!(creds.url, "https://chat.example");
    assert!(s.fetch_channels().is_none());
    let subs = vec![(Some(2), Some("zeta".to_string())), (Some(1), Some("alpha".to_string())), (None, None)];
    let chans = channels_from_subscriptions(subs.clone());
    assert_eq!(chans.iter().map(|c| c.name.clone()).collect::<Vec<_>>(), vec!["", "alpha", "zeta"]);
    s.finish_fetch_channels(Some(subs));
    assert!(s.channels_loaded() && !s.channels_loading());
    assert_eq!(s.get_channels().iter().map(|c| c.stream_id).collect::<Vec<_>>(), vec![0, 1, 2]);
    assert!(s.fetch_channels().is_none());
    s.reset_channels();
    assert!(!s.channels_loaded());
    assert!(s.get_channels().is_empty());
    assert!(s.fetch_channels().is_some());
}

#[test]
fn topics_skip_missing_names() {
    assert_eq!(topics_from_names(vec![Some("a".to_string()), None, Some("b".to_string())]), vec!["a", "b"]);
}

#[test]
fn live_feed_and_history() {
    let mut s = ZulipState::new();
    s.set_config(config(true));
    assert!(s.fetch_channel_messages("general", "mc").is_some());
    assert!(s.is_channel_loading("general", "mc"));
    assert!(s.fetch_channel_messages("general", "mc").is_none());
    s.finish_fetch_channel_messages("general", "mc", Some(vec![message(1, "general", "mc")]));
    assert!(!s.is_channel_loading("general", "mc"));
    s.apply_events(vec![
        (Some(message(2, "general", "mc")), Some(10)),
        (Some(message(1, "general", "mc")), Some(11)),
        (Some(message(3, "other", "x")), Some(7)),
        (None, Some(12)),
    ]);
    assert_eq!(s.last_event_id, 12);
    assert_eq!(s.get_messages().iter().map(|m| m.id).collect::<Vec<_>>(), vec![2, 1, 3]);
    let hist = s.get_channel_messages("general", "mc").expect("loaded");
    assert_eq!(hist.iter().map(|m| m.id).collect::<Vec<_>>(), vec![1, 2]);
    assert!(s.get_channel_messages("other", "x").is_none());
    assert_eq!(s.get_stream_messages("other").iter().map(|m| m.id).collect::<Vec<_>>(), vec![3]);
    s.clear_messages();
    assert!(s.get_messages().is_empty());
}

#[test]
fn live_feed_keeps_the_last_two_hundred() {
    let mut s = ZulipState::new();
    let evs: Vec<(Option<ZulipMessage>, Option<i64>)> = (0..205).map(|i| (Some(message(i, "s", "t")), None)).collect();
    s.apply_events(evs);
    let ids: Vec<u64> = s.get_messages().iter().map(|m| m.id).collect();
    assert_eq!(ids.len(), 200);
    assert_eq!(ids[0], 5);
    assert_eq!(ids[199], 204);
}

#[test]
fn images_are_fetched_once() {
    let mut s = ZulipState::new();
    s.set_config(config(true));
    let url = "https://i.example/a.png".to_string();
    assert_eq!(s.get_image(&url), None);
    assert_eq!(s.fetch_image(url.clone()), Some("YTpi".to_string()));
    assert_eq!(s.get_image(&url), Some(CachedImage::Loading));
    assert_eq!(s.fetch_image(url.clone()), None);
    s.finish_fetch_image(url.clone(), false);
    assert_eq!(s.get_image(&url), Some(CachedImage::Failed));
    assert_eq!(s.fetch_image(url.clone()), None);
}

#[test]
fn decoded_images_are_handed_out_once() {
    let mut d = DecodedImages::new();
    d.insert("u".to_string(), DecodedImage { pixels: vec![0; 4], width: 1, height: 1 });
    d.insert("u".to_string(), DecodedImage { pixels: vec![1; 8], width: 2, height: 1 });
    let out = d.take_decoded_images();
    assert_eq!(out.len(), 1);
    assert_eq!(out[0].1.width, 2);
    assert!(d.take_decoded_images().is_empty());
}

#[test]
fn polled_messages_get_defaults() {
    let m = poll_message(None, None, Some("![i](/user_uploads/p.png)".to_string()), Some(0), false, None, None, "https://z");
    assert_eq!(m.id, 0);
    assert_eq!(m.sender, "?");
    assert_eq!(m.stream, "");
    assert_eq!(m.image_urls, vec!["https://z/user_uploads/p.png"]);
    assert_eq!(m.time.len(), 5);
    let m = poll_message(Some(9), Some("al".to_string()), None, None, true, Some("general".to_string()), Some("t".to_string()), "https://z");
    assert_eq!((m.id, m.sender.as_str(), m.stream.as_str(), m.topic.as_str(), m.content.as_str()), (9, "al", "general", "t", ""));
}

const TWO_BY_ONE_PNG: [u8; 71] = [
    137, 80, 78, 71, 13, 10, 26, 10, 0, 0, 0, 13, 73, 72, 68, 82, 0, 0, 0, 2, 0, 0, 0, 1, 8, 6, 0, 0, 0, 244, 34,
    127, 138, 0, 0, 0, 14, 73, 68, 65, 84, 120, 156, 99, 248, 207, 192, 240, 31, 4, 1, 16, 248, 3, 253, 78, 149,
    193, 111, 0, 0, 0, 0, 73, 69, 78, 68, 174, 66, 96, 130,
];

#[test]
fn downloaded_images_are_decoded_to_fit() {
    let mut s = ZulipState::new();
    let mut d = DecodedImages::new();
    let url = "https://i.example/a.png".to_string();
    assert!(s.fetch_image(url.clone()).is_some());
    s.finish_image_download(&mut d, url.clone(), Some(TWO_BY_ONE_PNG.to_vec()));
    assert_eq!(s.get_image(&url), Some(CachedImage::Ready));
    let out = d.take_decoded_images();
    assert_eq!(out.len(), 1);
    assert_eq!((out[0].1.width, out[0].1.height), (256, 128));
    assert_eq!(out[0].1.pixels.len(), 256 * 128 * 4);
    assert_eq!(&out[0].1.pixels[0..4], &[255, 0, 0, 255]);
}

#[test]
fn undecodable_or_missing_bytes_fail() {
    let mut s = ZulipState::new();
    let mut d = DecodedImages::new();
    let u1 = "https://i.example/b.png".to_string();
    let u2 = "https://i.example/c.png".to_string();
    s.finish_image_download(&mut d, u1.clone(), Some(b"not an image".to_vec()));
    s.finish_image_download(&mut d, u2.clone(), None);
    assert_eq!(s.get_image(&u1), Some(CachedImage::Failed));
    assert_eq!(s.get_image(&u2), Some(CachedImage::Failed));
    assert!(d.take_decoded_images().is_empty());
}

#[test]
fn history_requests_filter_by_stream_and_topic() {
    assert_eq!(
        narrow_filter("general", "a\"b\\c\n\u{1}"),
        "[{\"operand\":\"general\",\"operator\":\"stream\"},{\"operand\":\"a\\\"b\\\\c\\n\\u0001\",\"operator\":\"topic\"}]"
    );
    let narrow = narrow_filter("dev", "é");
    assert_eq!(narrow, "[{\"operand\":\"dev\",\"operator\":\"stream\"},{\"operand\":\"é\",\"operator\":\"topic\"}]");
    assert_eq!(
        history_url("https://z", "dev", "é"),
        format!("https://z/api/v1/messages?anchor=newest&num_before=50&num_after=0&narrow={}", urlencoding::encode(&narrow))
    );
    let mut value = serde_json::Map::new();
    value.insert("operator".to_string(), serde_json::Value::String("stream".to_string()));
    value.insert("operand".to_string(), serde_json::Value::String("dev".to_string()));
    let mut value2 = serde_json::Map::new();
    value2.insert("operator".to_string(), serde_json::Value::String("topic".to_string()));
    value2.insert("operand".to_string(), serde_json::Value::String("é".to_string()));
    let v = serde_json::Value::Array(vec![serde_json::Value::Object(value), serde_json::Value::Object(value2)]);
    assert_eq!(v.to_string(), narrow);
    assert_eq!(subscriptions_url("https://z"), "https://z/api/v1/users/me/subscriptions");
    assert_eq!(topics_url("https://z", 42), "https://z/api/v1/users/me/42/topics");
}

#[test]
fn script_overrides_replace_only_given_fields() {
    let c = config(false);
    let r = c.overridden(Some(true), None, Some("me@x".to_string()), None, None, Some("pvp".to_string()));
    assert!(r.enabled);
    assert_eq!(r.url, "https://chat.example");
    assert_eq!(r.email, "me@x");
    assert_eq!(r.api_key, "b");
    assert_eq!(r.stream, "general");
    assert_eq!(r.topic, "pvp");
}

#[test]
fn channels_of_one_name_keep_their_order() {
    let chans = channels_from_subscriptions(vec![
        (Some(3), Some("b".to_string())),
        (Some(1), Some("a".to_string())),
        (Some(2), Some("b".to_string())),
        (Some(4), Some("a".to_string())),
    ]);
    let ids: Vec<u64> = chans.iter().map(|c| c.stream_id).collect();
    assert_eq!(ids, vec![1, 4, 3, 2]);
}

#[test]
fn live_window_spans_several_polls() {
    let mut s = ZulipState::new();
    s.apply_events((0..150).map(|i| (Some(message(i, "s", "t")), None)).collect());
    s.apply_events(vec![(None, Some(7))]);
    s.apply_events((150..260).map(|i| (Some(message(i, "s", "t")), None)).collect());
    let ids: Vec<u64> = s.get_messages().iter().map(|m| m.id).collect();
    assert_eq!(ids, (60..260).collect::<Vec<u64>>());
}

#[test]
fn timestamps_in_range_give_a_clock_time() {
    let t = fmt_ts(1_700_000_000);
    assert_eq!(t.len(), 5);
    assert_eq!(&t[2..3], ":");
    assert!(t.chars().all(|c| c == ':' || c.is_ascii_digit()));
}

#[test]
fn garbage_is_no_thumbnail() {
    assert!(decode_thumbnail(b"not an image").is_none());
    let d = decode_thumbnail(&TWO_BY_ONE_PNG).unwrap();
    assert_eq!((d.width, d.height, d.pixels.len()), (256, 128, 256 * 128 * 4));
}
