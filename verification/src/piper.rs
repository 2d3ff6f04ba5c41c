//! Local Piper text-to-speech: where its binary and voice live, how ready
//! it is, and the install commands offered when something is missing.

use vstd::prelude::*;
use crate::text::{extend_str, string_of};

verus! {

/// Voice the install instructions fetch.
pub const DEFAULT_PIPER_VOICE: &'static str = "en_US-lessac-medium";

/// How ready local Piper TTS is, with install help.
#[derive(Debug, Clone)]
pub struct PiperStatus {
    pub available: bool,
    pub engine: String,
    pub data_dir: String,
    pub piper_bin: String,
    pub model_path: String,
    pub model_present: bool,
    pub bin_present: bool,
    pub install_command_windows: String,
    pub install_command_unix: String,
    pub note: String,
}

/// What the file system shows about a Piper install.
#[derive(Debug, Clone)]
pub struct PiperProbe {
    pub data_dir: String,
    pub piper_bin: String,
    pub model_path: String,
    pub bin_present: bool,
    pub model_present: bool,
    /// One of the runtime libraries sits next to the binary.
    pub libraries_present: bool,
}

/// The PowerShell install script for a data directory and model path.
pub open spec fn windows_install(dir: Seq<char>, model: Seq<char>) -> Seq<char> {
    "# OpenLive · install open-source Piper TTS (Windows PowerShell)\n# Prefer: powershell -ExecutionPolicy Bypass -File scripts\\install-piper.ps1\n$dir = \""@
        + dir
        + "\"\n$binDir = \"$dir\\piper\"; $models = \"$dir\\models\"\nNew-Item -ItemType Directory -Force -Path $binDir,$models | Out-Null\n$zip = \"$dir\\piper-windows.zip\"\nInvoke-WebRequest -Uri \"https://github.com/rhasspy/piper/releases/download/2023.11.14-2/piper_windows_amd64.zip\" -OutFile $zip\n$ex = \"$dir\\_extract\"; if (Test-Path $ex) { Remove-Item $ex -Recurse -Force }; Expand-Archive $zip $ex -Force\n$exe = Get-ChildItem $ex -Recurse -Filter piper.exe | Where-Object { Test-Path (Join-Path $_.DirectoryName 'onnxruntime.dll') } | Select-Object -First 1\nif (-not $exe) { $exe = Get-ChildItem $ex -Recurse -Filter piper.exe | Select-Object -First 1 }\nCopy-Item (Join-Path $exe.DirectoryName '*') $binDir -Recurse -Force\nInvoke-WebRequest -Uri \"https://huggingface.co/rhasspy/piper-voices/resolve/main/en/en_US/lessac/medium/en_US-lessac-medium.onnx\" -OutFile \""@
        + model
        + "\"\nInvoke-WebRequest -Uri \"https://huggingface.co/rhasspy/piper-voices/resolve/main/en/en_US/lessac/medium/en_US-lessac-medium.onnx.json\" -OutFile \""@
        + model
        + ".json\"\nWrite-Host \"Installed. Binary: $binDir\\piper.exe  Model: "@
        + model
        + "\"\nWrite-Host \"Restart openlive-gateway (127.0.0.1:12345). Settings → TTS → Auto/Piper.\"\n"@
}

/// The shell install script for a data directory, model and binary path.
pub open spec fn unix_install(dir: Seq<char>, model: Seq<char>, bin: Seq<char>) -> Seq<char> {
    "# OpenLive · install open-source Piper TTS (Linux/macOS)\nDIR=\""@
        + dir
        + "\"\nmkdir -p \"$DIR/piper\" \"$DIR/models\"\n# Download a piper release for your OS from https://github.com/rhasspy/piper/releases\n# Example (linux x64):\n# curl -L -o /tmp/piper.tar.gz \"https://github.com/rhasspy/piper/releases/download/2023.11.14-2/piper_linux_x86_64.tar.gz\"\n# tar -xzf /tmp/piper.tar.gz -C \"$DIR/piper\" --strip-components=1\ncurl -L -o \""@
        + model
        + "\" \\\n  \"https://huggingface.co/rhasspy/piper-voices/resolve/main/en/en_US/lessac/medium/en_US-lessac-medium.onnx\"\ncurl -L -o \""@
        + model
        + ".json\" \\\n  \"https://huggingface.co/rhasspy/piper-voices/resolve/main/en/en_US/lessac/medium/en_US-lessac-medium.onnx.json\"\necho \"Model: "@
        + model
        + "\"\necho \"Place piper binary at: "@
        + bin
        + "\"\n"@
}

fn windows_install_text(dir: &str, model: &str) -> (r: String)
    ensures
        r@ == windows_install(dir@, model@),
{
    let mut v: Vec<char> = Vec::new();
    extend_str(&mut v, "# OpenLive · install open-source Piper TTS (Windows PowerShell)\n# Prefer: powershell -ExecutionPolicy Bypass -File scripts\\install-piper.ps1\n$dir = \"");
    extend_str(&mut v, dir);
    extend_str(&mut v, "\"\n$binDir = \"$dir\\piper\"; $models = \"$dir\\models\"\nNew-Item -ItemType Directory -Force -Path $binDir,$models | Out-Null\n$zip = \"$dir\\piper-windows.zip\"\nInvoke-WebRequest -Uri \"https://github.com/rhasspy/piper/releases/download/2023.11.14-2/piper_windows_amd64.zip\" -OutFile $zip\n$ex = \"$dir\\_extract\"; if (Test-Path $ex) { Remove-Item $ex -Recurse -Force }; Expand-Archive $zip $ex -Force\n$exe = Get-ChildItem $ex -Recurse -Filter piper.exe | Where-Object { Test-Path (Join-Path $_.DirectoryName 'onnxruntime.dll') } | Select-Object -First 1\nif (-not $exe) { $exe = Get-ChildItem $ex -Recurse -Filter piper.exe | Select-Object -First 1 }\nCopy-Item (Join-Path $exe.DirectoryName '*') $binDir -Recurse -Force\nInvoke-WebRequest -Uri \"https://huggingface.co/rhasspy/piper-voices/resolve/main/en/en_US/lessac/medium/en_US-lessac-medium.onnx\" -OutFile \"");
    extend_str(&mut v, model);
    extend_str(&mut v, "\"\nInvoke-WebRequest -Uri \"https://huggingface.co/rhasspy/piper-voices/resolve/main/en/en_US/lessac/medium/en_US-lessac-medium.onnx.json\" -OutFile \"");
    extend_str(&mut v, model);
    extend_str(&mut v, ".json\"\nWrite-Host \"Installed. Binary: $binDir\\piper.exe  Model: ");
    extend_str(&mut v, model);
    extend_str(&mut v, "\"\nWrite-Host \"Restart openlive-gateway (127.0.0.1:12345). Settings → TTS → Auto/Piper.\"\n");
    string_of(&v)
}

fn unix_install_text(dir: &str, model: &str, bin: &str) -> (r: String)
    ensures
        r@ == unix_install(dir@, model@, bin@),
{
    let mut v: Vec<char> = Vec::new();
    extend_str(&mut v, "# OpenLive · install open-source Piper TTS (Linux/macOS)\nDIR=\"");
    extend_str(&mut v, dir);
    extend_str(&mut v, "\"\nmkdir -p \"$DIR/piper\" \"$DIR/models\"\n# Download a piper release for your OS from https://github.com/rhasspy/piper/releases\n# Example (linux x64):\n# curl -L -o /tmp/piper.tar.gz \"https://github.com/rhasspy/piper/releases/download/2023.11.14-2/piper_linux_x86_64.tar.gz\"\n# tar -xzf /tmp/piper.tar.gz -C \"$DIR/piper\" --strip-components=1\ncurl -L -o \"");
    extend_str(&mut v, model);
    extend_str(&mut v, "\" \\\n  \"https://huggingface.co/rhasspy/piper-voices/resolve/main/en/en_US/lessac/medium/en_US-lessac-medium.onnx\"\ncurl -L -o \"");
    extend_str(&mut v, model);
    extend_str(&mut v, ".json\" \\\n  \"https://huggingface.co/rhasspy/piper-voices/resolve/main/en/en_US/lessac/medium/en_US-lessac-medium.onnx.json\"\necho \"Model: ");
    extend_str(&mut v, model);
    extend_str(&mut v, "\"\necho \"Place piper binary at: ");
    extend_str(&mut v, bin);
    extend_str(&mut v, "\"\n");
    string_of(&v)
}

/// The note explaining what is missing.
pub open spec fn piper_note(available: bool, bin_present: bool, model_present: bool) -> Seq<char> {
    if available {
        "Piper is ready — OpenLive will use open-source neural TTS."@
    } else if !bin_present && !model_present {
        "Piper binary and voice model are missing. Copy-paste the install command for your OS."@
    } else if !bin_present {
        "Piper binary missing (model found). Run the install command."@
    } else {
        "Piper binary found but voice model missing. Run the install command."@
    }
}

/// Piper is ready when its binary, its voice model and a runtime library
/// are present; the status says what is missing and how to install.
pub fn piper_status(probe: &PiperProbe) -> (s: PiperStatus)
    ensures
        s.available == (probe.bin_present && probe.model_present && probe.libraries_present),
        s.engine@ == if s.available { "piper"@ } else { "missing"@ },
        s.data_dir@ == probe.data_dir@,
        s.piper_bin@ == probe.piper_bin@,
        s.model_path@ == probe.model_path@,
        s.model_present == probe.model_present,
        s.bin_present == probe.bin_present,
        s.install_command_windows@ == windows_install(probe.data_dir@, probe.model_path@),
        s.install_command_unix@ == unix_install(probe.data_dir@, probe.model_path@, probe.piper_bin@),
        s.note@ == piper_note(s.available, probe.bin_present, probe.model_present),
{
    let available = probe.bin_present && probe.model_present && probe.libraries_present;
    let note = if available {
        "Piper is ready — OpenLive will use open-source neural TTS.".to_owned()
    } else if !probe.bin_present && !probe.model_present {
        "Piper binary and voice model are missing. Copy-paste the install command for your OS.".to_owned()
    } else if !probe.bin_present {
        "Piper binary missing (model found). Run the install command.".to_owned()
    } else {
        "Piper binary found but voice model missing. Run the install command.".to_owned()
    };
    PiperStatus {
        available,
        engine: if available {
            "piper".to_owned()
        } else {
            "missing".to_owned()
        },
        data_dir: probe.data_dir.clone(),
        piper_bin: probe.piper_bin.clone(),
        model_path: probe.model_path.clone(),
        model_present: probe.model_present,
        bin_present: probe.bin_present,
        install_command_windows: windows_install_text(probe.data_dir.as_str(), probe.model_path.as_str()),
        install_command_unix: unix_install_text(
            probe.data_dir.as_str(),
            probe.model_path.as_str(),
            probe.piper_bin.as_str(),
        ),
        note,
    }
}

/// A place the Piper executable may be, as the file system shows it.
#[derive(Debug, Clone)]
pub struct BinCandidate {
    pub path: String,
    pub is_file: bool,
    /// A runtime library sits in the same directory.
    pub has_libraries: bool,
}

/// The first candidate that is a file next to its runtime libraries.
pub open spec fn chosen_bin(cs: Seq<BinCandidate>, fallback: Seq<char>) -> Seq<char>
    decreases cs.len(),
{
    if cs.len() == 0 {
        fallback
    } else if cs[0].is_file && cs[0].has_libraries {
        cs[0].path@
    } else {
        chosen_bin(cs.drop_first(), fallback)
    }
}

/// The Piper executable to run: the first candidate that sits next to its
/// libraries, else the documented path (the status then explains).
pub fn resolve_piper_bin(candidates: &Vec<BinCandidate>, fallback: &str) -> (r: String)
    ensures
        r@ == chosen_bin(candidates@, fallback@),
{
    let mut i: usize = 0;
    assert(candidates@.skip(0) =~= candidates@);
    while i < candidates.len()
        invariant
            i <= candidates@.len(),
            chosen_bin(candidates@, fallback@) == chosen_bin(candidates@.skip(i as int), fallback@),
        decreases candidates@.len() - i,
    {
        assert(candidates@.skip(i as int)[0] == candidates@[i as int]);
        assert(candidates@.skip(i as int).drop_first() =~= candidates@.skip(i + 1));
        if candidates[i].is_file && candidates[i].has_libraries {
            return candidates[i].path.clone();
        }
        i = i + 1;
    }
    fallback.to_owned()
}


} // verus!
