use xbel_filter::source::filter_bytes;

fn run(input: &str, prefixes: &[&str]) -> String {
    let p: Vec<String> = prefixes.iter().map(|s| s.to_string()).collect();
    let out = filter_bytes(input.as_bytes().to_vec(), &p).unwrap();
    String::from_utf8(out).unwrap()
}

#[test]
fn no_filter() {
    let input = r#"<?xml version="1.0" encoding="UTF-8"?>
<xbel version="1.0"
      xmlns:bookmark="http://www.freedesktop.org/standards/desktop-bookmarks"
      xmlns:mime="http://www.freedesktop.org/standards/shared-mime-info"
>
  <bookmark href="file:///home/me/A-File.txt" added="2020-09-24T20:00:00Z" modified="2020-09-25T20:00:00Z" visited="2020-09-25T20:00:00Z">
    <info>
      <metadata owner="http://freedesktop.org">
        <mime:mime-type type="text/plain"/>
        <bookmark:groups>
          <bookmark:group>gedit</bookmark:group>
        </bookmark:groups>
        <bookmark:applications>
          <bookmark:application name="gedit" exec="&apos;gedit %u&apos;" modified="2020-09-25T20:00:00Z" count="1234"/>
        </bookmark:applications>
      </metadata>
    </info>
  </bookmark>
</xbel>
"#;
    assert_eq!(input, run(input, &[]));
}

#[test]
fn filter_two() {
    let input = r#"<?xml version="1.0" encoding="UTF-8"?>
<xbel version="1.0"
      xmlns:bookmark="http://www.freedesktop.org/standards/desktop-bookmarks"
      xmlns:mime="http://www.freedesktop.org/standards/shared-mime-info"
>
  <bookmark href="file:///home/a/A-File.txt" added="2020-09-24T20:00:00Z" modified="2020-09-25T20:00:00Z" visited="2020-09-25T20:00:00Z">
    <info>
      <metadata owner="http://freedesktop.org">
        <mime:mime-type type="text/plain"/>
        <bookmark:groups>
          <bookmark:group>gedit</bookmark:group>
        </bookmark:groups>
        <bookmark:applications>
          <bookmark:application name="gedit" exec="&apos;gedit %u&apos;" modified="2020-09-25T20:00:00Z" count="1234"/>
        </bookmark:applications>
      </metadata>
    </info>
  </bookmark>
  <bookmark href="file:///home/b/A-File.txt" added="2020-09-24T20:00:00Z" modified="2020-09-25T20:00:00Z" visited="2020-09-25T20:00:00Z">
    <info>
      <metadata owner="http://freedesktop.org">
        <mime:mime-type type="text/plain"/>
        <bookmark:groups>
          <bookmark:group>gedit</bookmark:group>
        </bookmark:groups>
        <bookmark:applications>
          <bookmark:application name="gedit" exec="&apos;gedit %u&apos;" modified="2020-09-25T20:00:00Z" count="1234"/>
        </bookmark:applications>
      </metadata>
    </info>
  </bookmark>
  <bookmark href="file:///home/me/A-File.txt" added="2020-09-24T20:00:00Z" modified="2020-09-25T20:00:00Z" visited="2020-09-25T20:00:00Z">
    <info>
      <metadata owner="http://freedesktop.org">
        <mime:mime-type type="text/plain"/>
        <bookmark:groups>
          <bookmark:group>gedit</bookmark:group>
        </bookmark:groups>
        <bookmark:applications>
          <bookmark:application name="gedit" exec="&apos;gedit %u&apos;" modified="2020-09-25T20:00:00Z" count="1234"/>
        </bookmark:applications>
      </metadata>
    </info>
  </bookmark>
</xbel>
"#;
    let expected = r#"<?xml version="1.0" encoding="UTF-8"?>
<xbel version="1.0"
      xmlns:bookmark="http://www.freedesktop.org/standards/desktop-bookmarks"
      xmlns:mime="http://www.freedesktop.org/standards/shared-mime-info"
>
  <bookmark href="file:///home/me/A-File.txt" added="2020-09-24T20:00:00Z" modified="2020-09-25T20:00:00Z" visited="2020-09-25T20:00:00Z">
    <info>
      <metadata owner="http://freedesktop.org">
        <mime:mime-type type="text/plain"/>
        <bookmark:groups>
          <bookmark:group>gedit</bookmark:group>
        </bookmark:groups>
        <bookmark:applications>
          <bookmark:application name="gedit" exec="&apos;gedit %u&apos;" modified="2020-09-25T20:00:00Z" count="1234"/>
        </bookmark:applications>
      </metadata>
    </info>
  </bookmark>
</xbel>
"#;
    assert_eq!(expected, run(input, &["/home/a", "/home/b"]));
}

#[test]
fn filter_one() {
    let input = r#"<?xml version="1.0" encoding="UTF-8"?>
<xbel version="1.0"
      xmlns:bookmark="http://www.freedesktop.org/standards/desktop-bookmarks"
      xmlns:mime="http://www.freedesktop.org/standards/shared-mime-info"
>
  <bookmark href="file:///tmp/A-File.txt" added="2020-09-24T20:00:00Z" modified="2020-09-25T20:00:00Z" visited="2020-09-25T20:00:00Z">
    <info>
      <metadata owner="http://freedesktop.org">
        <mime:mime-type type="text/plain"/>
        <bookmark:groups>
          <bookmark:group>gedit</bookmark:group>
        </bookmark:groups>
        <bookmark:applications>
          <bookmark:application name="gedit" exec="&apos;gedit %u&apos;" modified="2020-09-25T20:00:00Z" count="1234"/>
        </bookmark:applications>
      </metadata>
    </info>
  </bookmark>
  <bookmark href="file:///home/me/A-File.txt" added="2020-09-24T20:00:00Z" modified="2020-09-25T20:00:00Z" visited="2020-09-25T20:00:00Z">
    <info>
      <metadata owner="http://freedesktop.org">
        <mime:mime-type type="text/plain"/>
        <bookmark:groups>
          <bookmark:group>gedit</bookmark:group>
        </bookmark:groups>
        <bookmark:applications>
          <bookmark:application name="gedit" exec="&apos;gedit %u&apos;" modified="2020-09-25T20:00:00Z" count="1234"/>
        </bookmark:applications>
      </metadata>
    </info>
  </bookmark>
</xbel>
"#;
    let expected = r#"<?xml version="1.0" encoding="UTF-8"?>
<xbel version="1.0"
      xmlns:bookmark="http://www.freedesktop.org/standards/desktop-bookmarks"
      xmlns:mime="http://www.freedesktop.org/standards/shared-mime-info"
>
  <bookmark href="file:///home/me/A-File.txt" added="2020-09-24T20:00:00Z" modified="2020-09-25T20:00:00Z" visited="2020-09-25T20:00:00Z">
    <info>
      <metadata owner="http://freedesktop.org">
        <mime:mime-type type="text/plain"/>
        <bookmark:groups>
          <bookmark:group>gedit</bookmark:group>
        </bookmark:groups>
        <bookmark:applications>
          <bookmark:application name="gedit" exec="&apos;gedit %u&apos;" modified="2020-09-25T20:00:00Z" count="1234"/>
        </bookmark:applications>
      </metadata>
    </info>
  </bookmark>
</xbel>
"#;
    assert_eq!(expected, run(input, &["/tmp"]));
}

#[test]
fn filter_encoded() {
    let input = r#"<?xml version="1.0" encoding="UTF-8"?>
<xbel version="1.0"
      xmlns:bookmark="http://www.freedesktop.org/standards/desktop-bookmarks"
      xmlns:mime="http://www.freedesktop.org/standards/shared-mime-info"
>
  <bookmark href="file:///opt/A%20Directory/A-File.txt" added="2020-09-24T20:00:00Z" modified="2020-09-25T20:00:00Z" visited="2020-09-25T20:00:00Z">
    <info>
      <metadata owner="http://freedesktop.org">
        <mime:mime-type type="text/plain"/>
        <bookmark:groups>
          <bookmark:group>gedit</bookmark:group>
        </bookmark:groups>
        <bookmark:applications>
          <bookmark:application name="gedit" exec="&apos;gedit %u&apos;" modified="2020-09-25T20:00:00Z" count="1234"/>
        </bookmark:applications>
      </metadata>
    </info>
  </bookmark>
  <bookmark href="file:///home/me/A-File.txt" added="2020-09-24T20:00:00Z" modified="2020-09-25T20:00:00Z" visited="2020-09-25T20:00:00Z">
    <info>
      <metadata owner="http://freedesktop.org">
        <mime:mime-type type="text/plain"/>
        <bookmark:groups>
          <bookmark:group>gedit</bookmark:group>
        </bookmark:groups>
        <bookmark:applications>
          <bookmark:application name="gedit" exec="&apos;gedit %u&apos;" modified="2020-09-25T20:00:00Z" count="1234"/>
        </bookmark:applications>
      </metadata>
    </info>
  </bookmark>
</xbel>
"#;
    let expected = r#"<?xml version="1.0" encoding="UTF-8"?>
<xbel version="1.0"
      xmlns:bookmark="http://www.freedesktop.org/standards/desktop-bookmarks"
      xmlns:mime="http://www.freedesktop.org/standards/shared-mime-info"
>
  <bookmark href="file:///home/me/A-File.txt" added="2020-09-24T20:00:00Z" modified="2020-09-25T20:00:00Z" visited="2020-09-25T20:00:00Z">
    <info>
      <metadata owner="http://freedesktop.org">
        <mime:mime-type type="text/plain"/>
        <bookmark:groups>
          <bookmark:group>gedit</bookmark:group>
        </bookmark:groups>
        <bookmark:applications>
          <bookmark:application name="gedit" exec="&apos;gedit %u&apos;" modified="2020-09-25T20:00:00Z" count="1234"/>
        </bookmark:applications>
      </metadata>
    </info>
  </bookmark>
</xbel>
"#;
    assert_eq!(expected, run(input, &["/opt/A Directory"]));
}

#[test]
fn tolerate_invalid_utf8() {
    let input = r#"<?xml version="1.0" encoding="UTF-8"?>
<xbel version="1.0"
      xmlns:bookmark="http://www.freedesktop.org/standards/desktop-bookmarks"
      xmlns:mime="http://www.freedesktop.org/standards/shared-mime-info"
>
  <bookmark href="file:///opt/A%20Directory/A-File.txt%BC" added="2022-04-08T20:00:00Z" modified="2022-04-08T20:00:00Z" visited="2022-04-08T20:00:00Z">
    <info>
      <metadata owner="http://freedesktop.org">
        <mime:mime-type type="text/plain"/>
        <bookmark:groups>
          <bookmark:group>gedit</bookmark:group>
        </bookmark:groups>
        <bookmark:applications>
          <bookmark:application name="gedit" exec="&apos;gedit %u&apos;" modified="2022-04-08T20:00:00Z" count="1234"/>
        </bookmark:applications>
      </metadata>
    </info>
  </bookmark>
  <bookmark href="file:///opt/Another%20Directory/Another-File.txt%BC" added="2022-04-08T20:00:00Z" modified="22022-04-08T20:00:00Z" visited="2022-04-08T20:00:00Z">
    <info>
      <metadata owner="http://freedesktop.org">
        <mime:mime-type type="text/plain"/>
        <bookmark:groups>
          <bookmark:group>gedit</bookmark:group>
        </bookmark:groups>
        <bookmark:applications>
          <bookmark:application name="gedit" exec="&apos;gedit %u&apos;" modified="2022-04-08T20:00:00Z" count="1234"/>
        </bookmark:applications>
      </metadata>
    </info>
  </bookmark>
</xbel>
"#;
    let expected = r#"<?xml version="1.0" encoding="UTF-8"?>
<xbel version="1.0"
      xmlns:bookmark="http://www.freedesktop.org/standards/desktop-bookmarks"
      xmlns:mime="http://www.freedesktop.org/standards/shared-mime-info"
>
  <bookmark href="file:///opt/Another%20Directory/Another-File.txt%BC" added="2022-04-08T20:00:00Z" modified="22022-04-08T20:00:00Z" visited="2022-04-08T20:00:00Z">
    <info>
      <metadata owner="http://freedesktop.org">
        <mime:mime-type type="text/plain"/>
        <bookmark:groups>
          <bookmark:group>gedit</bookmark:group>
        </bookmark:groups>
        <bookmark:applications>
          <bookmark:application name="gedit" exec="&apos;gedit %u&apos;" modified="2022-04-08T20:00:00Z" count="1234"/>
        </bookmark:applications>
      </metadata>
    </info>
  </bookmark>
</xbel>
"#;
    assert_eq!(expected, run(input, &["/opt/A Directory"]));
}

#[test]
fn other_protocols() {
    let input = r#"<?xml version="1.0" encoding="UTF-8"?>
<xbel version="1.0"
      xmlns:bookmark="http://www.freedesktop.org/standards/desktop-bookmarks"
      xmlns:mime="http://www.freedesktop.org/standards/shared-mime-info"
>
  <bookmark href="trash:///A-File.txt" added="2020-09-24T20:00:00Z" modified="2020-09-25T20:00:00Z" visited="2020-09-25T20:00:00Z">
    <info>
      <metadata owner="http://freedesktop.org">
        <mime:mime-type type="text/plain"/>
        <bookmark:groups>
          <bookmark:group>gedit</bookmark:group>
        </bookmark:groups>
        <bookmark:applications>
          <bookmark:application name="gedit" exec="&apos;gedit %u&apos;" modified="2020-09-25T20:00:00Z" count="1234"/>
        </bookmark:applications>
      </metadata>
    </info>
  </bookmark>
  <bookmark href="mtp://phone_model/Path/To/File.txt" added="2020-09-24T20:00:00Z" modified="2020-09-25T20:00:00Z" visited="2020-09-25T20:00:00Z">
    <info>
      <metadata owner="http://freedesktop.org">
        <mime:mime-type type="text/plain"/>
        <bookmark:groups>
          <bookmark:group>gedit</bookmark:group>
        </bookmark:groups>
        <bookmark:applications>
          <bookmark:application name="gedit" exec="&apos;gedit %u&apos;" modified="2020-09-25T20:00:00Z" count="1234"/>
        </bookmark:applications>
      </metadata>
    </info>
  </bookmark>
  <bookmark href="ftp://user@host/Path/To/File" added="2021-09-14T18:00:00Z" modified="2021-09-14T18:00:00Z" visited="2021-09-14T18:00:00Z">
    <info>
      <metadata owner="http://freedesktop.org">
        <mime:mime-type type="application/x-php"/>
        <bookmark:groups>
          <bookmark:group>gedit</bookmark:group>
        </bookmark:groups>
        <bookmark:applications>
          <bookmark:application name="gedit" exec="&apos;gedit %u&apos;" modified="2021-09-14T18:00:00Z" count="1234"/>
        </bookmark:applications>
      </metadata>
    </info>
  </bookmark>
  <bookmark href="sftp://user@host/Path/To/File" added="2021-09-14T18:00:00Z" modified="2021-09-14T18:00:00Z" visited="2021-09-14T18:00:00Z">
    <info>
      <metadata owner="http://freedesktop.org">
        <mime:mime-type type="application/x-php"/>
        <bookmark:groups>
          <bookmark:group>gedit</bookmark:group>
        </bookmark:groups>
        <bookmark:applications>
          <bookmark:application name="gedit" exec="&apos;gedit %u&apos;" modified="2021-09-14T18:00:00Z" count="1234"/>
        </bookmark:applications>
      </metadata>
    </info>
  </bookmark>
</xbel>
"#;
    assert_eq!(input, run(input, &[]));
}
