use udp_upload::config::{parse_u16, ServerConfig};
use udp_upload::filename::Filename;

fn check(name: &str) -> Result<String, &'static str> {
    Filename::new(Some(name.to_string())).map(|f| f.filename)
}

#[test]
fn accepts_valid_names() {
    assert_eq!(check("a.txt"), Ok("a.txt".to_string()));
    assert_eq!(check("abcdefghijk.txt"), Ok("abcdefghijk.txt".to_string()));
    assert_eq!(check("file.c"), Ok("file.c".to_string()));
    assert_eq!(check("noext."), Ok("noext.".to_string()));
    assert_eq!(check(".abc"), Ok(".abc".to_string()));
}

#[test]
fn rejects_invalid_names() {
    assert_eq!(check("abcdefghijkl.txt"), Err("Nome não permitido"));
    assert_eq!(check("noextension"), Err("Nome não permitido"));
    assert_eq!(check("a.b.c"), Err("Nome não permitido"));
    assert_eq!(check("a.html"), Err("Nome não permitido"));
    assert_eq!(check("caf\u{e9}.txt"), Err("Nome não permitido"));
    assert_eq!(check(""), Err("Nome não permitido"));
}

#[test]
fn missing_name_is_reported() {
    assert_eq!(Filename::new(None).map(|f| f.filename), Err("Nome do arquivo não especificado"));
}

#[test]
fn server_port_argument() {
    assert_eq!(ServerConfig::from_port_arg(Some("8080".to_string())).map(|c| c.port), Ok(8080));
    assert_eq!(ServerConfig::from_port_arg(Some("+80".to_string())).map(|c| c.port), Ok(80));
    assert_eq!(ServerConfig::from_port_arg(Some("65535".to_string())).map(|c| c.port), Ok(65535));
    assert_eq!(
        ServerConfig::from_port_arg(Some("65536".to_string())).map(|c| c.port),
        Err("A porta deve ser um inteiro unsigned de 16 bits")
    );
    assert_eq!(
        ServerConfig::from_port_arg(Some("http".to_string())).map(|c| c.port),
        Err("A porta deve ser um inteiro unsigned de 16 bits")
    );
    assert_eq!(
        ServerConfig::from_port_arg(Some("-1".to_string())).map(|c| c.port),
        Err("A porta deve ser um inteiro unsigned de 16 bits")
    );
    assert_eq!(ServerConfig::from_port_arg(None).map(|c| c.port), Err("Nenhuma porta especificada"));
}

#[test]
fn decimal_port_parsing() {
    assert_eq!(parse_u16("0"), Some(0));
    assert_eq!(parse_u16("007"), Some(7));
    assert_eq!(parse_u16("+30000"), Some(30000));
    assert_eq!(parse_u16("65535"), Some(65535));
    assert_eq!(parse_u16("65536"), None);
    assert_eq!(parse_u16("99999999999999999999"), None);
    assert_eq!(parse_u16(""), None);
    assert_eq!(parse_u16("+"), None);
    assert_eq!(parse_u16("12a"), None);
    assert_eq!(parse_u16(" 12"), None);
    assert_eq!(parse_u16("\u{661}"), None);
}
