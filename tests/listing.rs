use shaken::formats::best_audio_format;

const LISTING: &str = "[youtube] dQw4w9WgXcQ: Downloading webpage\r
[info] Available formats for dQw4w9WgXcQ:\r
format code  extension  resolution note\r
249          webm       audio only tiny   50k , opus @ 50k (48000Hz), 1.18MiB\r
250          webm       audio only tiny   70k , opus @ 70k (48000Hz), 1.55MiB\r
140          m4a        audio only tiny  130k , m4a_dash container, mp4a.40.2@128k\r
251          webm       audio only tiny  130k , opus @160k (48000Hz), 3.28MiB\r
160          mp4        256x144    144p  108k , avc1.4d400c, 30fps, video only\r
18           mp4        640x360    360p  634k , avc1.42001E, mp4a.40.2@ 96k\r
";

#[test]
fn best_audio_is_highest_bitrate_last_of_equals() {
    assert_eq!(best_audio_format(LISTING), Some(251));
}

#[test]
fn best_audio_none_without_audio_rows() {
    assert_eq!(best_audio_format(""), None);
    assert_eq!(best_audio_format("no table here\n"), None);
    assert_eq!(
        best_audio_format("160          mp4        256x144    144p  108k , video only\n"),
        None
    );
}
