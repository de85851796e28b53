use vstd::prelude::*;

verus! {

/// Where the data lives: the configured directory when there is one, else the
/// application's default.
pub fn get_data_directory(app_data_dir: String, custom_path: Option<String>) -> (r: String)
    ensures
        r@ == match custom_path {
            Some(p) => p@,
            None => app_data_dir@,
        },
{
    match custom_path {
        Some(p) => p,
        None => app_data_dir,
    }
}

/// Reads key material: exactly 32 bytes, or nothing.
pub fn key_from_bytes(data: &Vec<u8>) -> (r: Option<[u8; 32]>)
    ensures
        r is Some <==> data@.len() == 32,
        r matches Some(k) ==> k@ == data@,
{
    if data.len() != 32 {
        return None;
    }
    let mut k: [u8; 32] = [0u8; 32];
    let mut i: usize = 0;
    while i < 32
        invariant
            i <= 32,
            data@.len() == 32,
            k@.len() == 32,
            forall|j: int| 0 <= j < i ==> k@[j] == data@[j],
        decreases 32 - i,
    {
        k[i] = data[i];
        i = i + 1;
    }
    assert(k@ =~= data@);
    Some(k)
}

} // verus!
