use ucl::{parse, Decimal, Value};

const FIXTURE: &str = r#"# A site's configuration.
# this_should_not_appear = true;
version = 1.0;
/* this_should_not_appear = true; */
this_must_appear = true;

general {
    user = nobody;
    daemon = true;
    fork = 4;
}

site {
    log_rotate = 7d;
    bind = ":80";
    bind = ":443";

    api {
        timeout = 1000ms;
        max_recv_size = 25mb;
        # upstream = "127.0.0.1:8080";
        permissions = [
            { user = root; role = admin; },
            { user = guest; role = ""; }
        ];
    }

    www {
        base_dir = "/var/www";
        timeout = 100ms;
        index = ["index.html", "index.htm"];
        file_types = [.html, .css, .js];
        banner = <<EOT
Welcome.
Mind the gap.
EOT
    }
}
"#;

/// The float that a value of the float kind is nearest to.
fn as_f64(v: &Value) -> f64 {
    let d: Decimal = v.unwrap();
    format!("{}e{}", d.mantissa(), d.exponent())
        .parse()
        .unwrap()
}

#[test]
fn test_parse_file() {
    let cfg = parse(FIXTURE).unwrap();
    assert_eq!(as_f64(&cfg["version"]), 1.0);
    assert_eq!(cfg.get("this_should_not_appear"), None);
    assert_eq!(cfg["this_must_appear"].unwrap::<bool>(), true);

    assert_eq!(cfg["general"]["user"].unwrap::<String>(), "nobody".to_owned());
    assert_eq!(cfg["general"]["daemon"].unwrap::<bool>(), true);
    assert_eq!(cfg["general"]["fork"].unwrap::<i64>(), 4);

    assert_eq!(as_f64(&cfg["site"]["log_rotate"]), (7*24*60*60) as f64);
    assert_eq!(cfg["site"]["bind"][0].unwrap::<String>(), ":80".to_owned());
    assert_eq!(cfg["site"]["bind"][1].unwrap::<String>(), ":443".to_owned());

    assert_eq!(as_f64(&cfg["site"]["api"]["timeout"]), 1_f64);
    assert_eq!(cfg["site"]["api"]["max_recv_size"].unwrap::<i64>(), 25*1024*1024);
    assert_eq!(cfg["site"]["api"]["permissions"][0]["user"].unwrap::<String>(), "root".to_owned());
    assert_eq!(cfg["site"]["api"]["permissions"][0]["role"].unwrap::<String>(), "admin".to_owned());
    assert_eq!(cfg["site"]["api"]["permissions"][1]["user"].unwrap::<String>(), "guest".to_owned());
    assert_eq!(cfg["site"]["api"]["permissions"][1]["role"].unwrap::<String>(), "".to_owned());
    assert_eq!(cfg["site"]["api"].get("upstream"), None);

    assert_eq!(cfg["site"]["www"]["base_dir"].unwrap::<String>(), "/var/www".to_owned());
    assert_eq!(as_f64(&cfg["site"]["www"]["timeout"]), 0.1);
    assert_eq!(cfg["site"]["www"]["index"][0].unwrap::<String>(), "index.html".to_owned());
    assert_eq!(cfg["site"]["www"]["index"][1].unwrap::<String>(), "index.htm".to_owned());
    assert_eq!(cfg["site"]["www"]["file_types"][0].unwrap::<String>(), ".html".to_owned());
    assert_eq!(cfg["site"]["www"]["file_types"][1].unwrap::<String>(), ".css".to_owned());
    assert_eq!(cfg["site"]["www"]["file_types"][2].unwrap::<String>(), ".js".to_owned());
    assert_eq!(
        cfg["site"]["www"]["banner"].unwrap::<String>(),
        "Welcome.\nMind the gap.".to_owned()
    );
}
