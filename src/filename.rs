//! The names of files that can be uploaded.
use vstd::prelude::*;
use vstd::string::StrSliceExecFns;
use vstd::utf8::is_ascii_chars;

verus! {

/// The longest file name, in characters (bytes, since it is ASCII).
pub const MAX_NAME_LEN: usize = 15;

/// The longest extension, in characters.
pub const MAX_EXTENSION_LEN: usize = 3;

/// `s` holds exactly one `.`, at index `i`, and at most three characters
/// follow it.
pub open spec fn dot_at(s: Seq<char>, i: int) -> bool {
    &&& 0 <= i < s.len()
    &&& s[i] == '.'
    &&& forall|j: int| 0 <= j < s.len() && j != i ==> #[trigger] s[j] != '.'
    &&& s.len() - i - 1 <= MAX_EXTENSION_LEN
}

/// A name that may be uploaded: ASCII, at most fifteen characters, exactly
/// one `.`, and an extension of at most three characters.
pub open spec fn valid_filename(s: Seq<char>) -> bool {
    &&& is_ascii_chars(s)
    &&& s.len() <= MAX_NAME_LEN
    &&& exists|i: int| dot_at(s, i)
}

/// A file name that passed validation.
pub struct Filename {
    pub filename: String,
}

impl Filename {
    /// Validates the name given, if one was.
    pub fn new(filename: Option<String>) -> (r: Result<Filename, &'static str>)
        ensures
            filename is None ==> (r matches Err(e) && e@ == "Nome do arquivo não especificado"@),
            filename matches Some(s) ==> (r is Ok <==> valid_filename(s@)),
            filename matches Some(s) ==> (r matches Ok(f) ==> f.filename@ == s@),
            filename matches Some(s) ==> (r matches Err(e) ==> e@ == "Nome não permitido"@),
    {
        let name = match filename {
            Some(name) => name,
            None => {
                return Err("Nome do arquivo não especificado");
            },
        };
        if !name.is_ascii() {
            return Err("Nome não permitido");
        }
        let text = name.as_str();
        let ghost chars = name@;
        let n = text.unicode_len();
        if n > MAX_NAME_LEN {
            return Err("Nome não permitido");
        }
        let mut found: Option<usize> = None;
        let mut repeated = false;
        let mut i: usize = 0;
        while i < n
            invariant_except_break
                i <= n,
                !repeated,
            invariant
                n == chars.len(),
                text@ == chars,
                found is None ==> forall|j: int| 0 <= j < i ==> #[trigger] chars[j] != '.',
                found matches Some(p) ==> p < i && chars[p as int] == '.' && forall|j: int|
                    0 <= j < i && j != p ==> #[trigger] chars[j] != '.',
                repeated ==> found is Some && i < n && chars[i as int] == '.',
            ensures
                repeated || i == n,
            decreases n - i,
        {
            if text.get_char(i) == '.' {
                if found.is_some() {
                    repeated = true;
                    break;
                }
                found = Some(i);
            } else {
                assert(chars[i as int] != '.');
            }
            i = i + 1;
        }
        if repeated {
            assert(!exists|k: int| dot_at(chars, k)) by {
                if exists|k: int| dot_at(chars, k) {
                    let k = choose|k: int| dot_at(chars, k);
                    let p = found->Some_0;
                    if k != p {
                        assert(chars[p as int] != '.');
                    } else {
                        assert(chars[i as int] != '.');
                    }
                }
            }
            return Err("Nome não permitido");
        }
        match found {
            None => {
                assert(!exists|k: int| dot_at(chars, k)) by {
                    if exists|k: int| dot_at(chars, k) {
                        let k = choose|k: int| dot_at(chars, k);
                        assert(chars[k] != '.');
                    }
                }
                Err("Nome não permitido")
            },
            Some(p) => {
                if n - p - 1 > MAX_EXTENSION_LEN {
                    assert(!exists|k: int| dot_at(chars, k)) by {
                        if exists|k: int| dot_at(chars, k) {
                            let k = choose|k: int| dot_at(chars, k);
                            if k != p {
                                assert(chars[p as int] != '.');
                            }
                        }
                    }
                    Err("Nome não permitido")
                } else {
                    assert(dot_at(chars, p as int));
                    Ok(Filename { filename: name })
                }
            },
        }
    }
}

} // verus!
