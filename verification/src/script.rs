//! The scripts that are run in a profile's page. Each returns a string.

use vstd::prelude::*;

verus! {

/// Gives the document as it stands.
pub const APP_ID_DUMP_SCRIPT: &'static str = r#"(function(){
  return document.documentElement ? document.documentElement.outerHTML : '';
})()"#;

/// Wraps `fetch` and `XMLHttpRequest` before the page's own scripts run, and
/// records the bodies and headers of the page's GraphQL requests in
/// `window.__igq`. Replays carry the mark `__igq_replay=1` and are passed over.
pub const RECORDER_SCRIPT: &'static str = r#"(function(){
  if (window.__igq) { return; }
  window.__igq = [];
  var CAP = 40;
  var flatten = function(h){
    var out = {};
    try {
      if (!h) { return out; }
      if (typeof h.forEach === 'function' && !Array.isArray(h)) {
        h.forEach(function(v, k){ out[k] = v; });
      } else if (Array.isArray(h)) {
        h.forEach(function(pair){ if (pair && pair.length === 2) { out[pair[0]] = pair[1]; } });
      } else {
        Object.keys(h).forEach(function(k){ out[k] = h[k]; });
      }
    } catch (e) {}
    return out;
  };
  var note = function(url, body, headers){
    try {
      if (typeof url !== 'string' || url.indexOf('/graphql/query') === -1) { return; }
      if (typeof body !== 'string' || body.indexOf('__igq_replay=1') !== -1) { return; }
      if (body.indexOf('doc_id=') === -1) { return; }
      if (window.__igq.length < CAP) {
        window.__igq.push({body: body, headers: headers || {}});
      }
    } catch (e) {}
  };
  var of = window.fetch;
  if (of) {
    window.fetch = function(input, init){
      try {
        var url = (typeof input === 'string') ? input : (input && input.url) || '';
        note(url, init && init.body, flatten(init && init.headers));
      } catch (e) {}
      return of.apply(this, arguments);
    };
  }
  var XHR = window.XMLHttpRequest;
  if (XHR && XHR.prototype) {
    var oopen = XHR.prototype.open;
    var osend = XHR.prototype.send;
    var oset = XHR.prototype.setRequestHeader;
    XHR.prototype.open = function(method, url){
      try { this.__igq_url = url; this.__igq_h = {}; } catch (e) {}
      return oopen.apply(this, arguments);
    };
    XHR.prototype.setRequestHeader = function(k, v){
      try { (this.__igq_h = this.__igq_h || {})[k] = v; } catch (e) {}
      return oset.apply(this, arguments);
    };
    XHR.prototype.send = function(body){
      try { note(this.__igq_url, body, this.__igq_h); } catch (e) {}
      return osend.apply(this, arguments);
    };
  }
})()"#;

/// Gives what was recorded, decoded, as a JSON list of captured queries.
pub const READ_RECORDER_SCRIPT: &'static str = r#"(function(){
  var out = [];
  try {
    (window.__igq || []).forEach(function(rec){
      try {
        var body = (rec && typeof rec === 'object') ? rec.body : rec;
        var headers = (rec && typeof rec === 'object' && rec.headers) ? rec.headers : {};
        var p = new URLSearchParams(body);
        var docId = p.get('doc_id') || '';
        if (!docId) { return; }
        out.push({
          friendly_name: p.get('fb_api_req_friendly_name') || '',
          doc_id: docId,
          variables: p.get('variables') || '',
          fb_dtsg: p.get('fb_dtsg') || '',
          lsd: p.get('lsd') || '',
          jazoest: p.get('jazoest') || '',
          headers: headers
        });
      } catch (e) {}
    });
  } catch (e) {}
  return JSON.stringify(out);
})()"#;

/// Gives how many requests were recorded.
pub const RECORDER_COUNT_SCRIPT: &'static str = r#"(function(){
  return String((window.__igq || []).length);
})()"#;

/// The function that replays a query. Its result is a JSON envelope.
pub const GRAPHQL_FN: &'static str = r#"(async function(docId, variables, dtsg, lsd, jazoest, friendly, appId, headersJson){
  try {
    var body = new URLSearchParams();
    body.set('doc_id', docId);
    body.set('variables', variables);
    body.set('server_timestamps', 'true');
    body.set('fb_api_caller_class', 'RelayModern');
    if (friendly) { body.set('fb_api_req_friendly_name', friendly); }
    if (dtsg) { body.set('fb_dtsg', dtsg); }
    if (lsd) { body.set('lsd', lsd); }
    if (jazoest) { body.set('jazoest', jazoest); }
    body.set('__igq_replay', '1');

    // Start from the headers IG's own client sent, minus the ones the browser
    // computes itself (setting them throws or is silently dropped).
    var skip = {'content-length': 1, 'host': 1, 'connection': 1, 'cookie': 1};
    var headers = {};
    try {
      var captured = JSON.parse(headersJson || '{}');
      Object.keys(captured).forEach(function(k){
        if (!skip[String(k).toLowerCase()]) { headers[k] = captured[k]; }
      });
    } catch (e) {}

    headers['content-type'] = 'application/x-www-form-urlencoded';
    if (appId) { headers['X-IG-App-ID'] = appId; }
    if (friendly) { headers['X-FB-Friendly-Name'] = friendly; }
    if (lsd) { headers['X-FB-LSD'] = lsd; }

    // Required on GraphQL POSTs and not always present on the captured
    // request: mirror the csrftoken cookie.
    var hasCsrf = Object.keys(headers).some(function(k){
      return String(k).toLowerCase() === 'x-csrftoken';
    });
    if (!hasCsrf) {
      var m = document.cookie.match(/(?:^|;\s*)csrftoken=([^;]+)/);
      if (m) { headers['X-CSRFToken'] = decodeURIComponent(m[1]); }
    }

    var r = await fetch('/graphql/query', {
      method: 'POST',
      headers: headers,
      body: body.toString(),
      credentials: 'include',
      referrerPolicy: 'no-referrer-when-downgrade'
    });
    var text = await r.text();
    return JSON.stringify({status: r.status, url: r.url, body: text});
  } catch (e) {
    return JSON.stringify({status: 0, error: String(e)});
  }
})"#;

/// Gives the address of the page and the start of its text as JSON.
pub const DOM_FACTS_SCRIPT: &'static str = r#"(function(){
  return JSON.stringify({
    url: location.href,
    body: (document.body && document.body.innerText) ? document.body.innerText.slice(0, 2000) : ''
  });
})()"#;

} // verus!
